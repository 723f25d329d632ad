//! Numbers and bytes written out as text: decimal numbers, lowercase hex and
//! percent-encoded bytes.
use vstd::prelude::*;

verus! {

/// The character of a decimal digit.
pub open spec fn digit_char(d: int) -> char {
    ((48 + d) as u8) as char
}

/// The character of a hex digit, lowercase.
pub open spec fn hex_char(d: int) -> char {
    if d < 10 {
        ((48 + d) as u8) as char
    } else {
        ((87 + d) as u8) as char
    }
}

/// A number in decimal, without leading zeros.
pub open spec fn decimal(n: nat) -> Seq<char>
    decreases n,
{
    if n < 10 {
        seq![digit_char(n as int)]
    } else {
        decimal(n / 10) + seq![digit_char((n % 10) as int)]
    }
}

/// The number that a run of decimal digits stands for, read from the left.
pub open spec fn decimal_value(s: Seq<char>) -> int
    decreases s.len(),
{
    if s.len() == 0 {
        0
    } else {
        decimal_value(s.drop_last()) * 10 + (s.last() as int - 48)
    }
}

/// Whether `s` is a non-empty run of decimal digits that reads as `n`.
pub open spec fn reads_as(s: Seq<char>, n: int) -> bool {
    &&& s.len() >= 1
    &&& forall|j: int| 0 <= j < s.len() ==> 48 <= #[trigger] (s[j] as int) <= 57
    &&& decimal_value(s) == n
}

/// Any number written in decimal reads back as itself.
pub proof fn lemma_decimal_reads_back(n: nat)
    ensures
        reads_as(decimal(n), n as int),
    decreases n,
{
    let d = decimal(n);
    if n < 10 {
        assert(d[0] as int == 48 + n);
        assert(d.drop_last() =~= Seq::<char>::empty());
        assert(decimal_value(Seq::<char>::empty()) == 0);
        assert(decimal_value(d) == decimal_value(d.drop_last()) * 10 + (d.last() as int - 48));
    } else {
        lemma_decimal_reads_back(n / 10);
        let prev = decimal(n / 10);
        assert(d.drop_last() =~= prev);
        assert(d.last() as int == 48 + n % 10);
        assert forall|j: int| 0 <= j < d.len() implies 48 <= #[trigger] (d[j] as int) <= 57 by {
            if j < prev.len() {
                assert(d[j] == prev[j]);
            }
        }
        assert(decimal_value(d) == decimal_value(d.drop_last()) * 10 + (d.last() as int - 48));
        assert((n / 10) * 10 + n % 10 == n);
    }
}

/// Bytes in lowercase hex, two digits each.
pub open spec fn hex_lower(bytes: Seq<u8>) -> Seq<char>
    decreases bytes.len(),
{
    if bytes.len() == 0 {
        Seq::empty()
    } else {
        hex_lower(bytes.drop_last()) + seq![
            hex_char((bytes.last() / 16) as int),
            hex_char((bytes.last() % 16) as int),
        ]
    }
}

/// Bytes percent-encoded: `%` and two lowercase hex digits each.
pub open spec fn percent_encoded(bytes: Seq<u8>) -> Seq<char>
    decreases bytes.len(),
{
    if bytes.len() == 0 {
        Seq::empty()
    } else {
        percent_encoded(bytes.drop_last()) + seq![
            '%',
            hex_char((bytes.last() / 16) as int),
            hex_char((bytes.last() % 16) as int),
        ]
    }
}

/// Appends one character, with `String::push`.
#[verifier::external_body]
pub(crate) fn push_char(s: &mut String, c: char)
    ensures
        final(s)@ == old(s)@.push(c),
{
    s.push(c);
}

/// The character of the decimal digit `d`.
fn digit(d: u64) -> (c: char)
    requires
        d < 10,
    ensures
        c == digit_char(d as int),
{
    ((48 + d) as u8) as char
}

/// The character of the hex digit `d`, lowercase.
fn hex_digit(d: u8) -> (c: char)
    requires
        d < 16,
    ensures
        c == hex_char(d as int),
{
    if d < 10 {
        ((48 + d) as u8) as char
    } else {
        ((87 + d) as u8) as char
    }
}

/// Appends `n` in decimal.
pub fn push_decimal(s: &mut String, n: u64)
    ensures
        final(s)@ == old(s)@ + decimal(n as nat),
    decreases n,
{
    if n >= 10 {
        push_decimal(s, n / 10);
    }
    push_char(s, digit(n % 10));
    assert(final(s)@ =~= old(s)@ + decimal(n as nat));
}

/// Appends the bytes in lowercase hex.
pub fn push_hex_lower(s: &mut String, bytes: &[u8])
    ensures
        final(s)@ == old(s)@ + hex_lower(bytes@),
{
    let mut i: usize = 0;
    while i < bytes.len()
        invariant
            i <= bytes@.len(),
            s@ == old(s)@ + hex_lower(bytes@.subrange(0, i as int)),
        decreases bytes@.len() - i,
    {
        let b = bytes[i];
        push_char(s, hex_digit(b / 16));
        push_char(s, hex_digit(b % 16));
        proof {
            let p = bytes@.subrange(0, i + 1);
            assert(p.drop_last() =~= bytes@.subrange(0, i as int));
        }
        i = i + 1;
        assert(s@ =~= old(s)@ + hex_lower(bytes@.subrange(0, i as int)));
    }
    assert(bytes@.subrange(0, i as int) =~= bytes@);
}

/// Appends the bytes percent-encoded.
pub fn push_percent_encoded(s: &mut String, bytes: &[u8])
    ensures
        final(s)@ == old(s)@ + percent_encoded(bytes@),
{
    let mut i: usize = 0;
    while i < bytes.len()
        invariant
            i <= bytes@.len(),
            s@ == old(s)@ + percent_encoded(bytes@.subrange(0, i as int)),
        decreases bytes@.len() - i,
    {
        let b = bytes[i];
        push_char(s, '%');
        push_char(s, hex_digit(b / 16));
        push_char(s, hex_digit(b % 16));
        proof {
            let p = bytes@.subrange(0, i + 1);
            assert(p.drop_last() =~= bytes@.subrange(0, i as int));
        }
        i = i + 1;
        assert(s@ =~= old(s)@ + percent_encoded(bytes@.subrange(0, i as int)));
    }
    assert(bytes@.subrange(0, i as int) =~= bytes@);
}

/// The bytes in lowercase hex.
pub fn to_hex_lower(bytes: &[u8]) -> (r: String)
    ensures
        r@ == hex_lower(bytes@),
{
    let mut s = String::new();
    push_hex_lower(&mut s, bytes);
    assert(s@ =~= hex_lower(bytes@));
    s
}

} // verus!
