//! A bencoded value written out token by token, a dictionary's entries in
//! the order they are held, and what the nesting scan reads of it: exactly
//! how many lists and dictionaries are open at once, at the deepest point.
use vstd::prelude::*;

use crate::torrent::bencode::{dict_depth, list_depth, Bencode};
use crate::torrent::nesting::{
    digits_value, find_from, is_digit, lemma_nesting_at_least, nesting_depth, nesting_from,
    string_token_end, MAX_NESTING,
};

verus! {

/// The decimal digits of `n`, as ASCII bytes, without leading zeros.
pub open spec fn decimal_bytes(n: nat) -> Seq<u8>
    decreases n,
{
    if n < 10 {
        seq![(48 + n) as u8]
    } else {
        decimal_bytes(n / 10).push((48 + n % 10) as u8)
    }
}

/// The text of an integer between `i` and `e`: a minus sign for a negative
/// one, then its decimal digits.
pub open spec fn integer_text(i: i64) -> Seq<u8> {
    if i < 0 {
        seq![45u8] + decimal_bytes((-i) as nat)
    } else {
        decimal_bytes(i as nat)
    }
}

/// A byte string written out: its length in decimal, `:`, then its bytes.
pub open spec fn string_written(b: Seq<u8>) -> Seq<u8> {
    decimal_bytes(b.len()) + seq![58u8] + b
}

/// A value written out: `i`, the number and `e`; a byte string; `l`, the
/// items and `e`; or `d`, each key and value, and `e`.
pub open spec fn written(v: Bencode) -> Seq<u8>
    decreases v,
{
    match v {
        Bencode::Bytes(b) => string_written(b@),
        Bencode::Int(i) => seq![105u8] + integer_text(i) + seq![101u8],
        Bencode::List(items) => seq![108u8] + items_written(items@) + seq![101u8],
        Bencode::Dict(entries) => seq![100u8] + entries_written(entries@) + seq![101u8],
    }
}

/// A list's items written out one after another.
pub open spec fn items_written(items: Seq<Bencode>) -> Seq<u8>
    decreases items,
{
    if items.len() == 0 {
        Seq::empty()
    } else {
        items_written(items.drop_last()) + written(items.last())
    }
}

/// A dictionary's entries written out one after another, each key before
/// its value.
pub open spec fn entries_written(entries: Seq<(Vec<u8>, Bencode)>) -> Seq<u8>
    decreases entries,
{
    if entries.len() == 0 {
        Seq::empty()
    } else {
        entries_written(entries.drop_last()) + string_written(entries.last().0@) + written(
            entries.last().1,
        )
    }
}

/// The larger of two numbers.
pub open spec fn larger(a: nat, b: nat) -> nat {
    if a >= b {
        a
    } else {
        b
    }
}

/// Whether `w` stands in `s` from `pos` on.
pub open spec fn stands_at(s: Seq<u8>, pos: int, w: Seq<u8>) -> bool {
    &&& 0 <= pos
    &&& pos + w.len() <= s.len()
    &&& s.subrange(pos, pos + w.len()) == w
}

/// A part of `w` stands in `s` where it falls.
proof fn lemma_part(s: Seq<u8>, pos: int, w: Seq<u8>, a: int, b: int)
    requires
        stands_at(s, pos, w),
        0 <= a <= b <= w.len(),
    ensures
        stands_at(s, pos + a, w.subrange(a, b)),
        forall|j: int| a <= j < b ==> s[pos + j] == #[trigger] w[j],
{
    assert forall|j: int| a <= j < b implies s[pos + j] == #[trigger] w[j] by {
        assert(s.subrange(pos, pos + w.len())[j] == s[pos + j]);
    }
    assert(s.subrange(pos + a, pos + b) =~= w.subrange(a, b));
}

/// Decimal digits are digits, and there is at least one.
proof fn lemma_decimal_bytes_digits(n: nat)
    ensures
        decimal_bytes(n).len() >= 1,
        forall|j: int| 0 <= j < decimal_bytes(n).len() ==> is_digit(#[trigger] decimal_bytes(n)[j]),
    decreases n,
{
    if n >= 10 {
        lemma_decimal_bytes_digits(n / 10);
    }
}

/// Decimal digits read back as the number they were written for.
proof fn lemma_decimal_bytes_value(s: Seq<u8>, pos: int, n: nat)
    requires
        stands_at(s, pos, decimal_bytes(n)),
    ensures
        digits_value(s, pos, pos + decimal_bytes(n).len()) == n,
    decreases n,
{
    let d = decimal_bytes(n);
    let l = d.len() as int;
    lemma_decimal_bytes_digits(n);
    lemma_part(s, pos, d, 0, l);
    if n >= 10 {
        let prev = decimal_bytes(n / 10);
        lemma_part(s, pos, d, 0, l - 1);
        assert(d.subrange(0, l - 1) =~= prev);
        lemma_decimal_bytes_value(s, pos, n / 10);
        assert(prev.len() == l - 1);
        assert(s[pos + l - 1] == d[l - 1]);
        assert(d[l - 1] == (48 + n % 10) as u8);
        assert(d[l - 1] - 48 == n % 10);
        assert(digits_value(s, pos, pos + l) == digits_value(s, pos, pos + l - 1) * 10 + (s[pos + l
            - 1] - 48));
        assert((n / 10) * 10 + n % 10 == n);
    } else {
        assert(s[pos] == d[0]);
        assert(d[0] - 48 == n);
        assert(digits_value(s, pos, pos) == 0);
        assert(digits_value(s, pos, pos + 1) == digits_value(s, pos, pos) * 10 + (s[pos] - 48));
    }
}

/// The first `c` at or after `from` is found where it stands.
proof fn lemma_find_first(s: Seq<u8>, from: int, k: int, c: u8)
    requires
        0 <= from <= k < s.len(),
        s[k] == c,
        forall|j: int| from <= j < k ==> s[j] != c,
    ensures
        find_from(s, from, c) == Some(k),
    decreases k - from,
{
    if from < k {
        lemma_find_first(s, from + 1, k, c);
    }
}

/// Inside an open list or dictionary, a byte string is read past as one
/// token and changes no depth.
proof fn lemma_string_scan(b: Seq<u8>, s: Seq<u8>, pos: int, depth: nat)
    requires
        depth >= 1,
        stands_at(s, pos, string_written(b)),
    ensures
        nesting_from(s, pos, depth) == nesting_from(s, pos + string_written(b).len(), depth),
{
    let w = string_written(b);
    let d = decimal_bytes(b.len());
    let l = d.len() as int;
    lemma_decimal_bytes_digits(b.len());
    lemma_part(s, pos, w, 0, w.len() as int);
    lemma_part(s, pos, w, 0, l);
    assert(w.subrange(0, l) =~= d);
    assert(w[l] == 58u8);
    assert forall|j: int| pos <= j < pos + l implies is_digit(#[trigger] s[j]) by {
        assert(s[pos + (j - pos)] == w[j - pos]);
        assert(w[j - pos] == d[j - pos]);
    }
    assert forall|j: int| pos <= j < pos + l implies s[j] != 58u8 by {
        assert(is_digit(s[j]));
    }
    assert(s[pos + l] == w[l]);
    lemma_find_first(s, pos, pos + l, 58u8);
    lemma_decimal_bytes_value(s, pos, b.len());
    assert(is_digit(s[pos]));
    assert(string_token_end(s, pos) == Some(pos + w.len()));
}

/// Inside an open list or dictionary, a value raises the deepest point to
/// the depth there plus its own depth, and reading goes on right after it.
pub proof fn lemma_written_scan(v: Bencode, s: Seq<u8>, pos: int, depth: nat)
    requires
        depth >= 1,
        stands_at(s, pos, written(v)),
    ensures
        nesting_from(s, pos, depth) == larger(
            depth + v.depth(),
            nesting_from(s, pos + written(v).len(), depth),
        ),
    decreases v,
{
    let w = written(v);
    let n = w.len() as int;
    lemma_part(s, pos, w, 0, n);
    lemma_nesting_at_least(s, pos + n, depth);
    match v {
        Bencode::Bytes(b) => {
            lemma_string_scan(b@, s, pos, depth);
        },
        Bencode::Int(i) => {
            let t = integer_text(i);
            let m = t.len() as int;
            if i < 0 {
                lemma_decimal_bytes_digits((-i) as nat);
                assert forall|j: int| 0 <= j < m implies t[j] != 101u8 by {
                    if j > 0 {
                        assert(t[j] == decimal_bytes((-i) as nat)[j - 1]);
                        assert(is_digit(decimal_bytes((-i) as nat)[j - 1]));
                    }
                }
            } else {
                lemma_decimal_bytes_digits(i as nat);
                assert forall|j: int| 0 <= j < m implies t[j] != 101u8 by {
                    assert(is_digit(t[j]));
                }
            }
            assert(w[0] == 105u8);
            assert(w[m + 1] == 101u8);
            assert forall|j: int| pos + 1 <= j < pos + m + 1 implies s[j] != 101u8 by {
                assert(s[pos + (j - pos)] == w[j - pos]);
                assert(w[j - pos] == t[j - pos - 1]);
            }
            assert(s[pos + (m + 1)] == w[m + 1]);
            lemma_find_first(s, pos + 1, pos + m + 1, 101u8);
            assert(s[pos] == w[0]);
        },
        Bencode::List(items) => {
            let iw = items_written(items@);
            let m = iw.len() as int;
            assert(w[0] == 108u8);
            assert(w[m + 1] == 101u8);
            assert(s[pos] == w[0]);
            assert(s[pos + (m + 1)] == w[m + 1]);
            lemma_part(s, pos, w, 1, m + 1);
            assert(w.subrange(1, m + 1) =~= iw);
            lemma_items_scan(items@, s, pos + 1, depth + 1);
            lemma_nesting_at_least(s, pos + m + 2, depth);
        },
        Bencode::Dict(entries) => {
            let ew = entries_written(entries@);
            let m = ew.len() as int;
            assert(w[0] == 100u8);
            assert(w[m + 1] == 101u8);
            assert(s[pos] == w[0]);
            assert(s[pos + (m + 1)] == w[m + 1]);
            lemma_part(s, pos, w, 1, m + 1);
            assert(w.subrange(1, m + 1) =~= ew);
            lemma_entries_scan(entries@, s, pos + 1, depth + 1);
            lemma_nesting_at_least(s, pos + m + 2, depth);
        },
    }
}

/// Inside an open list, its items raise the deepest point to the depth
/// there plus the deepest item's depth.
pub proof fn lemma_items_scan(items: Seq<Bencode>, s: Seq<u8>, pos: int, depth: nat)
    requires
        depth >= 1,
        stands_at(s, pos, items_written(items)),
    ensures
        nesting_from(s, pos, depth) == larger(
            depth + list_depth(items),
            nesting_from(s, pos + items_written(items).len(), depth),
        ),
    decreases items,
{
    lemma_nesting_at_least(s, pos + items_written(items).len(), depth);
    if items.len() > 0 {
        let init = items.drop_last();
        let w = items_written(items);
        let a = items_written(init).len() as int;
        lemma_part(s, pos, w, 0, a);
        assert(w.subrange(0, a) =~= items_written(init));
        lemma_part(s, pos, w, a, w.len() as int);
        assert(w.subrange(a, w.len() as int) =~= written(items.last()));
        lemma_items_scan(init, s, pos, depth);
        lemma_written_scan(items.last(), s, pos + a, depth);
    }
}

/// Inside an open dictionary, its entries raise the deepest point to the
/// depth there plus the deepest value's depth.
pub proof fn lemma_entries_scan(entries: Seq<(Vec<u8>, Bencode)>, s: Seq<u8>, pos: int, depth: nat)
    requires
        depth >= 1,
        stands_at(s, pos, entries_written(entries)),
    ensures
        nesting_from(s, pos, depth) == larger(
            depth + dict_depth(entries),
            nesting_from(s, pos + entries_written(entries).len(), depth),
        ),
    decreases entries,
{
    lemma_nesting_at_least(s, pos + entries_written(entries).len(), depth);
    if entries.len() > 0 {
        let init = entries.drop_last();
        let w = entries_written(entries);
        let a = entries_written(init).len() as int;
        let kw = string_written(entries.last().0@);
        let b = a + kw.len();
        lemma_part(s, pos, w, 0, a);
        assert(w.subrange(0, a) =~= entries_written(init));
        lemma_part(s, pos, w, a, b);
        assert(w.subrange(a, b) =~= kw);
        lemma_part(s, pos, w, b, w.len() as int);
        assert(w.subrange(b, w.len() as int) =~= written(entries.last().1));
        lemma_entries_scan(init, s, pos, depth);
        lemma_string_scan(entries.last().0@, s, pos + a, depth);
        lemma_written_scan(entries.last().1, s, pos + b, depth);
    }
}

/// The nesting scan measures how many lists and dictionaries are open at
/// once: for any value written out, followed by any bytes at all, it reads
/// exactly the value's depth. A list of two items nests as deeply as the
/// deeper of the two, not as deep as both together.
pub proof fn lemma_nesting_depth_of_written(v: Bencode, rest: Seq<u8>)
    ensures
        nesting_depth(written(v) + rest) == v.depth(),
{
    let w = written(v);
    let s = w + rest;
    let n = w.len() as int;
    assert(s.subrange(0, n) =~= w);
    lemma_part(s, 0, w, 0, n);
    match v {
        Bencode::Bytes(b) => {
            lemma_decimal_bytes_digits(b@.len());
            assert(s[0] == decimal_bytes(b@.len())[0]);
            assert(is_digit(s[0]));
        },
        Bencode::Int(_) => {
            assert(s[0] == w[0]);
        },
        Bencode::List(items) => {
            let iw = items_written(items@);
            let m = iw.len() as int;
            assert(s[0] == w[0]);
            assert(s[m + 1] == w[m + 1]);
            lemma_part(s, 0, w, 1, m + 1);
            assert(w.subrange(1, m + 1) =~= iw);
            lemma_items_scan(items@, s, 1, 1);
        },
        Bencode::Dict(entries) => {
            let ew = entries_written(entries@);
            let m = ew.len() as int;
            assert(s[0] == w[0]);
            assert(s[m + 1] == w[m + 1]);
            lemma_part(s, 0, w, 1, m + 1);
            assert(w.subrange(1, m + 1) =~= ew);
            lemma_entries_scan(entries@, s, 1, 1);
        },
    }
}

/// A value whose lists and dictionaries nest at most `MAX_NESTING` levels
/// deep passes the nesting check when written out, whatever follows it:
/// a torrent file with any number of files is not refused for its length.
pub proof fn lemma_shallow_values_pass(v: Bencode, rest: Seq<u8>)
    requires
        v.depth() <= MAX_NESTING,
    ensures
        nesting_depth(written(v) + rest) <= MAX_NESTING,
{
    lemma_nesting_depth_of_written(v, rest);
}

} // verus!
