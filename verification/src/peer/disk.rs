//! Where the bytes of a finished piece go on disk: the piece's offset in the
//! torrent's data, and for a multi-file torrent the part of each file that
//! the piece covers.
use vstd::prelude::*;

use crate::torrent::metainfo::{files_total, lemma_files_total_push, File, Info};

verus! {

/// Writes a torrent's pieces under `output_dir`.
#[derive(Debug, Clone)]
pub struct DiskWriter {
    pub output_dir: String,
    pub info: Info,
}

/// One write of a piece into one file: bytes `data_start ..
/// data_start + data_len` of the piece go to `file_offset` of file
/// `file_index`.
#[derive(Debug, Clone, Copy, PartialEq, Eq, Structural)]
pub struct FileWrite {
    pub file_index: usize,
    pub file_offset: u64,
    pub data_start: usize,
    pub data_len: usize,
}

/// Where file `k` starts in the torrent's data.
pub open spec fn file_start(files: Seq<File>, k: int) -> int {
    files_total(files.subrange(0, k))
}

pub open spec fn max_int(a: int, b: int) -> int {
    if a >= b {
        a
    } else {
        b
    }
}

pub open spec fn min_int(a: int, b: int) -> int {
    if a <= b {
        a
    } else {
        b
    }
}

/// Whether file `k` shares bytes with the piece `piece_start .. piece_end`.
pub open spec fn overlaps(files: Seq<File>, k: int, piece_start: int, piece_end: int) -> bool {
    let s = file_start(files, k);
    let e = s + files[k].length;
    !(piece_start >= e || piece_end <= s)
}

/// The writes that the piece `piece_start .. piece_end` makes into the first
/// `k` files: one for each file that it overlaps, in file order, covering
/// the overlap.
pub open spec fn planned_writes(files: Seq<File>, piece_start: int, piece_end: int, k: nat) -> Seq<
    FileWrite,
>
    decreases k,
{
    if k == 0 {
        Seq::empty()
    } else {
        let prev = planned_writes(files, piece_start, piece_end, (k - 1) as nat);
        let s = file_start(files, k - 1);
        let e = s + files[k - 1].length;
        if overlaps(files, k - 1, piece_start, piece_end) {
            let ws = max_int(piece_start, s);
            let we = min_int(piece_end, e);
            prev.push(
                FileWrite {
                    file_index: (k - 1) as usize,
                    file_offset: (ws - s) as u64,
                    data_start: (ws - piece_start) as usize,
                    data_len: (we - ws) as usize,
                },
            )
        } else {
            prev
        }
    }
}

/// Whether a write puts its bytes where they belong in the data: byte
/// `data_start` of the piece `piece_start .. piece_end` lies at
/// `file_offset` of the file, and the write stays within both the piece and
/// the file.
pub open spec fn write_lands(files: Seq<File>, piece_start: int, piece_end: int, w: FileWrite) -> bool {
    &&& w.file_index < files.len()
    &&& file_start(files, w.file_index as int) + w.file_offset == piece_start + w.data_start
    &&& w.file_offset + w.data_len <= files[w.file_index as int].length
    &&& w.data_start + w.data_len <= piece_end - piece_start
}

/// Every planned write lands where its bytes belong, each in its own file,
/// in file order: the offset in the file is the piece's position in the
/// data plus the write's start in the piece, less where the file starts,
/// for files and pieces of any size.
pub proof fn lemma_planned_writes_land(files: Seq<File>, piece_start: int, piece_end: int, k: nat)
    requires
        0 <= piece_start <= piece_end,
        piece_end - piece_start <= usize::MAX,
        k <= files.len() <= usize::MAX,
    ensures
        forall|j: int|
            0 <= j < planned_writes(files, piece_start, piece_end, k).len() ==> write_lands(
                files,
                piece_start,
                piece_end,
                #[trigger] planned_writes(files, piece_start, piece_end, k)[j],
            ) && planned_writes(files, piece_start, piece_end, k)[j].file_index < k,
        forall|i: int, j: int|
            0 <= i < j < planned_writes(files, piece_start, piece_end, k).len() ==> (
            #[trigger] planned_writes(files, piece_start, piece_end, k)[i]).file_index
                < (#[trigger] planned_writes(files, piece_start, piece_end, k)[j]).file_index,
    decreases k,
{
    if k > 0 {
        lemma_planned_writes_land(files, piece_start, piece_end, (k - 1) as nat);
        let prev = planned_writes(files, piece_start, piece_end, (k - 1) as nat);
        let cur = planned_writes(files, piece_start, piece_end, k);
        crate::torrent::metainfo::lemma_files_total_nonneg(files.subrange(0, k - 1));
        if overlaps(files, k - 1, piece_start, piece_end) {
            let st = file_start(files, k - 1);
            let e = st + files[k - 1].length;
            let ws = max_int(piece_start, st);
            let we = min_int(piece_end, e);
            assert(0 <= ws - st <= files[k - 1].length);
            assert(0 <= ws - piece_start <= piece_end - piece_start);
            assert(0 <= we - ws <= piece_end - piece_start);
            let w = cur[prev.len() as int];
            assert(w.file_offset == ws - st);
            assert(w.data_start == ws - piece_start);
            assert(w.data_len == we - ws);
            assert(w.file_index == k - 1);
            assert(write_lands(files, piece_start, piece_end, w));
            assert forall|j: int| 0 <= j < prev.len() implies cur[j] == #[trigger] prev[j] by {}
            assert forall|i: int, j: int| 0 <= i < j < cur.len() implies (#[trigger] cur[i]).file_index
                < (#[trigger] cur[j]).file_index by {
                assert(cur[i] == prev[i]);
                if j < prev.len() {
                    assert(cur[j] == prev[j]);
                }
            }
        }
    }
}

/// The number of bytes that a list of writes puts down.
pub open spec fn written_len(writes: Seq<FileWrite>) -> int
    decreases writes.len(),
{
    if writes.len() == 0 {
        0
    } else {
        written_len(writes.drop_last()) + writes.last().data_len
    }
}

/// A position clamped into `lo .. hi`.
pub open spec fn clamp(x: int, lo: int, hi: int) -> int {
    min_int(max_int(x, lo), hi)
}

impl DiskWriter {
    pub fn new(output_dir: String, info: Info) -> (r: Self)
        ensures
            r.output_dir == output_dir,
            r.info == info,
    {
        Self { output_dir, info }
    }

    /// Where piece `piece_index` starts in the torrent's data.
    pub fn piece_offset(&self, piece_index: u32) -> (r: u64)
        requires
            piece_index * self.info.piece_length <= u64::MAX,
        ensures
            r == piece_index * self.info.piece_length,
    {
        piece_index as u64 * self.info.piece_length
    }
}

/// The writes that put the `data_len` bytes of a piece starting at
/// `piece_offset` into the files of a multi-file torrent: one per file that
/// the piece overlaps, in file order. Each write takes its bytes right after
/// the previous one, and together they put down every byte of the piece
/// that lies within the files.
pub fn plan_multi_file_writes(piece_offset: u64, data_len: usize, files: &[File]) -> (r: Vec<
    FileWrite,
>)
    requires
        piece_offset + data_len <= u64::MAX,
        files_total(files@) <= u64::MAX,
    ensures
        r@ == planned_writes(files@, piece_offset as int, piece_offset + data_len, files@.len()),
        forall|j: int|
            0 <= j < r@.len() ==> #[trigger] r@[j].data_start == written_len(r@.subrange(0, j)),
        written_len(r@) == clamp(files_total(files@), piece_offset as int, piece_offset + data_len)
            - piece_offset,
        written_len(r@) <= data_len,
        forall|j: int|
            0 <= j < r@.len() ==> write_lands(
                files@,
                piece_offset as int,
                piece_offset + data_len,
                #[trigger] r@[j],
            ),
{
    let ghost po = piece_offset as int;
    let ghost pe = piece_offset + data_len;
    let mut writes: Vec<FileWrite> = Vec::new();
    let mut file_start_pos: u64 = 0;
    let mut data_offset: usize = 0;
    let piece_end: u64 = piece_offset + data_len as u64;
    let mut i: usize = 0;
    proof {
        assert(files@.subrange(0, 0) =~= Seq::<File>::empty());
        crate::torrent::metainfo::lemma_files_total_nonneg(files@);
    }
    while i < files.len()
        invariant
            i <= files@.len(),
            po == piece_offset,
            pe == piece_offset + data_len,
            piece_offset + data_len <= u64::MAX,
            piece_end == pe,
            files_total(files@) <= u64::MAX,
            file_start_pos == file_start(files@, i as int),
            file_start_pos <= files_total(files@),
            writes@ == planned_writes(files@, po, pe, i as nat),
            data_offset == clamp(file_start_pos as int, po, pe) - po,
            data_offset == written_len(writes@),
            forall|j: int|
                0 <= j < writes@.len() ==> #[trigger] writes@[j].data_start == written_len(
                    writes@.subrange(0, j),
                ),
        decreases files@.len() - i,
    {
        let ghost prefix = files@.subrange(0, i as int);
        proof {
            lemma_files_total_push(prefix, files@[i as int]);
            assert(files@.subrange(0, i + 1) =~= prefix.push(files@[i as int]));
            crate::torrent::metainfo::lemma_files_total_nonneg(files@.subrange(i + 1, files@.len() as int));
            crate::torrent::metainfo::lemma_files_grow(files@, i as int + 1);
        }
        let file_end = file_start_pos + files[i].length;
        if piece_offset >= file_end || piece_end <= file_start_pos {
            file_start_pos = file_end;
            i = i + 1;
            continue;
        }
        let write_start = if piece_offset > file_start_pos {
            piece_offset
        } else {
            file_start_pos
        };
        let write_end = if piece_end < file_end {
            piece_end
        } else {
            file_end
        };
        let file_offset = write_start - file_start_pos;
        let len = (write_end - write_start) as usize;
        let ghost before = writes@;
        writes.push(FileWrite { file_index: i, file_offset, data_start: data_offset, data_len: len });
        proof {
            assert(writes@.drop_last() =~= before);
            assert(writes@.subrange(0, before.len() as int) =~= before);
            assert forall|j: int|
                0 <= j < writes@.len() implies #[trigger] writes@[j].data_start == written_len(
                writes@.subrange(0, j),
            ) by {
                if j < before.len() {
                    assert(writes@.subrange(0, j) =~= before.subrange(0, j));
                }
            }
        }
        data_offset = data_offset + len;
        file_start_pos = file_end;
        i = i + 1;
    }
    proof {
        assert(files@.subrange(0, files@.len() as int) =~= files@);
        lemma_planned_writes_land(files@, po, pe, files@.len());
    }
    writes
}

} // verus!
