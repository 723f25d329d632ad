//! How deeply lists and dictionaries nest in bencoded bytes, read token by
//! token the way a bencode reader reads them: `l` and `d` open a level, `e`
//! closes one, `i` runs to the next `e`, and a digit starts a byte string
//! whose decimal length runs to `:`. Reading stops where a reader would fail.
use vstd::prelude::*;

verus! {

/// The deepest nesting that the library hands to the bencode reader and
/// writer, whose recursion takes one stack frame per level.
pub const MAX_NESTING: u64 = 128;

pub open spec fn is_digit(c: u8) -> bool {
    48 <= c <= 57
}

/// The number that the decimal digits `bytes[a..b]` stand for.
pub open spec fn digits_value(bytes: Seq<u8>, a: int, b: int) -> int
    decreases b - a,
{
    if b <= a {
        0
    } else {
        digits_value(bytes, a, b - 1) * 10 + (bytes[b - 1] - 48)
    }
}

/// The first position at or after `from` that holds `c`.
pub open spec fn find_from(bytes: Seq<u8>, from: int, c: u8) -> Option<int>
    decreases bytes.len() - from,
{
    if from < 0 || from >= bytes.len() {
        None
    } else if bytes[from] == c {
        Some(from)
    } else {
        find_from(bytes, from + 1, c)
    }
}

/// Where the byte string whose length starts at `pos` ends: its length is
/// the digits up to `:`, and that many bytes must follow.
pub open spec fn string_token_end(bytes: Seq<u8>, pos: int) -> Option<int> {
    match find_from(bytes, pos, 58) {
        Some(k) => if (forall|j: int| pos <= j < k ==> is_digit(#[trigger] bytes[j])) && k + 1
            + digits_value(bytes, pos, k) <= bytes.len() {
            Some(k + 1 + digits_value(bytes, pos, k))
        } else {
            None
        },
        None => None,
    }
}

/// The deepest nesting reached reading the tokens from `pos` on, at depth
/// `depth` there. At depth zero only a list or a dictionary is read on: any
/// other token is a whole value, or ends the reading as a reader fails.
pub open spec fn nesting_from(bytes: Seq<u8>, pos: int, depth: nat) -> nat
    decreases bytes.len() - pos,
{
    if pos < 0 || pos >= bytes.len() {
        depth
    } else {
        let c = bytes[pos];
        if c == 108 || c == 100 {
            nesting_from(bytes, pos + 1, depth + 1)
        } else if depth == 0 {
            0
        } else if c == 101 {
            if depth == 1 {
                1
            } else {
                let rest = nesting_from(bytes, pos + 1, (depth - 1) as nat);
                if rest > depth {
                    rest
                } else {
                    depth
                }
            }
        } else if c == 105 {
            match find_from(bytes, pos + 1, 101) {
                Some(q) => if pos < q < bytes.len() {
                    nesting_from(bytes, q + 1, depth)
                } else {
                    depth
                },
                None => depth,
            }
        } else if is_digit(c) {
            match string_token_end(bytes, pos) {
                Some(q) => if pos < q <= bytes.len() {
                    nesting_from(bytes, q, depth)
                } else {
                    depth
                },
                None => depth,
            }
        } else {
            depth
        }
    }
}

/// The deepest nesting of lists and dictionaries in the bencoded value that
/// `bytes` starts with.
pub open spec fn nesting_depth(bytes: Seq<u8>) -> nat {
    nesting_from(bytes, 0, 0)
}

/// Reading on never reports less than the depth already reached.
pub proof fn lemma_nesting_at_least(bytes: Seq<u8>, pos: int, depth: nat)
    ensures
        nesting_from(bytes, pos, depth) >= depth,
    decreases bytes.len() - pos,
{
    if 0 <= pos < bytes.len() {
        let c = bytes[pos];
        if c == 108 || c == 100 {
            lemma_nesting_at_least(bytes, pos + 1, depth + 1);
        } else if depth == 0 {
        } else if c == 105 {
            if let Some(q) = find_from(bytes, pos + 1, 101) {
                if pos < q < bytes.len() {
                    lemma_nesting_at_least(bytes, q + 1, depth);
                }
            }
        } else if is_digit(c) {
            if let Some(q) = string_token_end(bytes, pos) {
                if pos < q <= bytes.len() {
                    lemma_nesting_at_least(bytes, q, depth);
                }
            }
        }
    }
}

/// More digits never make a smaller number.
proof fn lemma_digits_grow(bytes: Seq<u8>, a: int, j: int, k: int)
    requires
        a <= j <= k,
        forall|i: int| a <= i < k ==> is_digit(#[trigger] bytes[i]),
    ensures
        digits_value(bytes, a, j) <= digits_value(bytes, a, k),
        digits_value(bytes, a, j) >= 0,
    decreases k - a,
{
    if j < k {
        lemma_digits_grow(bytes, a, j, k - 1);
    } else if j > a {
        lemma_digits_grow(bytes, a, j - 1, j - 1);
    }
}

/// The first position at or after `from` that holds `c`.
fn find_byte(bytes: &[u8], from: usize, c: u8) -> (r: Option<usize>)
    ensures
        match r {
            Some(q) => find_from(bytes@, from as int, c) == Some(q as int),
            None => find_from(bytes@, from as int, c) is None,
        },
{
    let mut i = from;
    while i < bytes.len()
        invariant
            from <= i,
            find_from(bytes@, from as int, c) == find_from(bytes@, i as int, c),
        decreases bytes@.len() - i,
    {
        if bytes[i] == c {
            return Some(i);
        }
        i = i + 1;
    }
    None
}

/// Where the byte string whose length starts at `pos` ends.
fn string_end(bytes: &[u8], pos: usize) -> (r: Option<usize>)
    requires
        pos < bytes@.len(),
    ensures
        match r {
            Some(q) => string_token_end(bytes@, pos as int) == Some(q as int),
            None => string_token_end(bytes@, pos as int) is None,
        },
{
    let k = match find_byte(bytes, pos, 58) {
        Some(k) => k,
        None => return None,
    };
    proof {
        lemma_find_from_bounds(bytes@, pos as int, 58);
    }
    let len = bytes.len() as u128;
    let mut v: u128 = 0;
    let mut j = pos;
    while j < k
        invariant
            pos <= j <= k < bytes@.len(),
            len == bytes@.len(),
            find_from(bytes@, pos as int, 58) == Some(k as int),
            forall|i: int| pos <= i < j ==> is_digit(#[trigger] bytes@[i]),
            v == digits_value(bytes@, pos as int, j as int),
            v <= len,
        decreases k - j,
    {
        let b = bytes[j];
        if b < 48 || b > 57 {
            assert(!is_digit(bytes@[j as int]));
            return None;
        }
        v = v * 10 + (b - 48) as u128;
        j = j + 1;
        if v > len {
            proof {
                if forall|i: int| pos <= i < k ==> is_digit(#[trigger] bytes@[i]) {
                    lemma_digits_grow(bytes@, pos as int, j as int, k as int);
                }
            }
            return None;
        }
    }
    if (k as u128) + 1 + v <= len {
        Some(k + 1 + v as usize)
    } else {
        None
    }
}

/// A found position lies at or after the start and holds the byte.
proof fn lemma_find_from_bounds(bytes: Seq<u8>, from: int, c: u8)
    ensures
        find_from(bytes, from, c) matches Some(q) ==> from <= q < bytes.len() && bytes[q] == c,
    decreases bytes.len() - from,
{
    if 0 <= from < bytes.len() && bytes[from] != c {
        lemma_find_from_bounds(bytes, from + 1, c);
    }
}

/// A byte string's end lies after its start and within the bytes.
proof fn lemma_string_end_after(bytes: Seq<u8>, pos: int)
    ensures
        string_token_end(bytes, pos) matches Some(q) ==> pos < q <= bytes.len(),
{
    lemma_find_from_bounds(bytes, pos, 58);
    if let Some(k) = find_from(bytes, pos, 58) {
        if forall|j: int| pos <= j < k ==> is_digit(#[trigger] bytes[j]) {
            lemma_digits_grow(bytes, pos, pos, k);
        }
    }
}

/// Whether the nesting of lists and dictionaries in the bencoded value that
/// `bytes` starts with stays within `limit` levels.
pub fn nesting_within(bytes: &[u8], limit: u64) -> (r: bool)
    ensures
        r == (nesting_depth(bytes@) <= limit),
{
    let mut pos: usize = 0;
    let mut depth: u64 = 0;
    while pos < bytes.len()
        invariant
            pos <= bytes@.len(),
            depth <= limit,
            (nesting_depth(bytes@) <= limit) == (nesting_from(bytes@, pos as int, depth as nat)
                <= limit),
        decreases bytes@.len() - pos,
    {
        let c = bytes[pos];
        if c == 108 || c == 100 {
            if depth == limit {
                proof {
                    lemma_nesting_at_least(bytes@, pos + 1, (depth + 1) as nat);
                }
                return false;
            }
            depth = depth + 1;
            pos = pos + 1;
        } else if depth == 0 {
            return true;
        } else if c == 101 {
            if depth == 1 {
                return true;
            }
            depth = depth - 1;
            pos = pos + 1;
        } else if c == 105 {
            match find_byte(bytes, pos + 1, 101) {
                Some(q) => {
                    proof {
                        lemma_find_from_bounds(bytes@, pos + 1, 101);
                    }
                    pos = q + 1;
                },
                None => return true,
            }
        } else if 48 <= c && c <= 57 {
            match string_end(bytes, pos) {
                Some(q) => {
                    proof {
                        lemma_string_end_after(bytes@, pos as int);
                    }
                    pos = q;
                },
                None => return true,
            }
        } else {
            return true;
        }
    }
    true
}

} // verus!
