//! The contents of a `.torrent` file.
use vstd::prelude::*;

verus! {

/// A torrent's metainfo.
#[derive(Debug, Clone)]
pub struct Torrent {
    pub announce: Option<String>,
    pub announce_list: Option<Vec<Vec<String>>>,
    pub info: Info,
    pub created_by: Option<String>,
    pub creation_date: Option<i64>,
    pub comment: Option<String>,
}

/// The `info` dictionary: what the torrent's data is and how it is cut.
#[derive(Debug, Clone)]
pub struct Info {
    pub name: String,
    pub piece_length: u64,
    pub pieces: Vec<u8>,
    pub private: Option<u8>,
    pub length: Option<u64>,
    pub files: Option<Vec<File>>,
}

/// One file of a multi-file torrent.
#[derive(Debug, Clone)]
pub struct File {
    pub length: u64,
    pub path: Vec<String>,
}

/// The sum of the lengths of the files.
pub open spec fn files_total(files: Seq<File>) -> int
    decreases files.len(),
{
    if files.len() == 0 {
        0
    } else {
        files_total(files.drop_last()) + files.last().length
    }
}

/// The size that a torrent's data has: the sum of its files' lengths, or
/// the single file's length (0 when the metainfo gives none).
pub open spec fn torrent_size(info: Info) -> int {
    match info.files {
        Some(files) => files_total(files@),
        None => match info.length {
            Some(l) => l as int,
            None => 0,
        },
    }
}

/// Adding one more file adds its length.
pub proof fn lemma_files_total_push(files: Seq<File>, f: File)
    ensures
        files_total(files.push(f)) == files_total(files) + f.length,
{
    assert(files.push(f).drop_last() =~= files);
}

/// The sum of lengths is never negative.
pub proof fn lemma_files_total_nonneg(files: Seq<File>)
    ensures
        files_total(files) >= 0,
    decreases files.len(),
{
    if files.len() > 0 {
        lemma_files_total_nonneg(files.drop_last());
    }
}

/// The sum of the files' lengths, or `None` when it does not fit in 64 bits.
pub fn sum_lengths(files: &[File]) -> (r: Option<u64>)
    ensures
        match r {
            Some(t) => t == files_total(files@),
            None => files_total(files@) > u64::MAX,
        },
{
    let mut total: u64 = 0;
    let mut i: usize = 0;
    while i < files.len()
        invariant
            i <= files@.len(),
            total == files_total(files@.subrange(0, i as int)),
        decreases files@.len() - i,
    {
        let ghost prefix = files@.subrange(0, i as int);
        proof {
            lemma_files_total_push(prefix, files@[i as int]);
            assert(files@.subrange(0, i + 1) =~= prefix.push(files@[i as int]));
        }
        let len = files[i].length;
        if total > u64::MAX - len {
            proof {
                lemma_files_grow(files@, i as int + 1);
            }
            return None;
        }
        total = total + len;
        i = i + 1;
    }
    assert(files@.subrange(0, i as int) =~= files@);
    Some(total)
}

/// The sum of a prefix's lengths is at most the sum of all of them.
pub proof fn lemma_files_grow(files: Seq<File>, k: int)
    requires
        0 <= k <= files.len(),
    ensures
        files_total(files.subrange(0, k)) <= files_total(files),
    decreases files.len() - k,
{
    if k < files.len() {
        lemma_files_grow(files, k + 1);
        lemma_files_total_push(files.subrange(0, k), files[k]);
        assert(files.subrange(0, k + 1) =~= files.subrange(0, k).push(files[k]));
    } else {
        assert(files.subrange(0, k) =~= files);
    }
}

impl Torrent {
    /// Returns true if this is a multi-file torrent.
    pub fn is_multi_file(&self) -> (r: bool)
        ensures
            r == self.info.files.is_some(),
    {
        self.info.files.is_some()
    }

    /// Whether the total size fits in 64 bits, so that `total_size` can add
    /// it up.
    pub fn total_size_fits(&self) -> (r: bool)
        ensures
            r == (torrent_size(self.info) <= u64::MAX),
    {
        match &self.info.files {
            Some(files) => sum_lengths(files.as_slice()).is_some(),
            None => true,
        }
    }

    /// Return the total size of all files in bytes.
    pub fn total_size(&self) -> (r: u64)
        requires
            torrent_size(self.info) <= u64::MAX,
        ensures
            r == torrent_size(self.info),
    {
        match &self.info.files {
            Some(files) => match sum_lengths(files.as_slice()) {
                Some(t) => t,
                None => 0,
            },
            None => match self.info.length {
                Some(l) => l,
                None => 0,
            },
        }
    }

    /// Return the number of pieces: `pieces` holds one 20-byte SHA-1 hash
    /// for each.
    pub fn piece_count(&self) -> (r: usize)
        ensures
            r == self.info.pieces@.len() / 20,
    {
        self.info.pieces.len() / 20
    }
}

} // verus!
