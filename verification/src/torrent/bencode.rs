//! Bencoded values, the encoding of `.torrent` files and tracker responses,
//! as the library holds them; decoding and encoding are done by
//! `serde_bencode`.
use vstd::prelude::*;
use serde_bencode::value::Value;

use crate::torrent::nesting::{nesting_depth, MAX_NESTING};

verus! {

#[verifier::external_type_specification]
#[verifier::external_body]
pub struct ExValue(serde_bencode::value::Value);

/// A bencoded value: a byte string, an integer, a list, or a dictionary
/// given as its entries (a key given twice counts with its last entry).
#[derive(Debug)]
pub enum Bencode {
    Bytes(Vec<u8>),
    Int(i64),
    List(Vec<Bencode>),
    Dict(Vec<(Vec<u8>, Bencode)>),
}

/// A bencoded value as a mathematical object: a dictionary is a map from
/// keys to values.
pub enum BencodeView {
    Bytes(Seq<u8>),
    Int(i64),
    List(Seq<BencodeView>),
    Dict(Map<Seq<u8>, BencodeView>),
}

impl Bencode {
    /// The value as a mathematical object.
    pub open spec fn model(self) -> BencodeView
        decreases self,
    {
        match self {
            Bencode::Bytes(b) => BencodeView::Bytes(b@),
            Bencode::Int(i) => BencodeView::Int(i),
            Bencode::List(items) => BencodeView::List(list_model(items@)),
            Bencode::Dict(entries) => BencodeView::Dict(dict_model(entries@)),
        }
    }
}

impl Bencode {
    /// How deeply lists and dictionaries nest in the value: none in a byte
    /// string or an integer, one more than the deepest item in a list or a
    /// dictionary.
    pub open spec fn depth(self) -> nat
        decreases self,
    {
        match self {
            Bencode::Bytes(_) => 0,
            Bencode::Int(_) => 0,
            Bencode::List(items) => 1 + list_depth(items@),
            Bencode::Dict(entries) => 1 + dict_depth(entries@),
        }
    }
}

/// The deepest nesting among a list's items.
pub open spec fn list_depth(items: Seq<Bencode>) -> nat
    decreases items,
{
    if items.len() == 0 {
        0
    } else {
        let rest = list_depth(items.drop_last());
        let last = items.last().depth();
        if rest > last {
            rest
        } else {
            last
        }
    }
}

/// The deepest nesting among a dictionary's values.
pub open spec fn dict_depth(entries: Seq<(Vec<u8>, Bencode)>) -> nat
    decreases entries,
{
    if entries.len() == 0 {
        0
    } else {
        let rest = dict_depth(entries.drop_last());
        let last = entries.last().1.depth();
        if rest > last {
            rest
        } else {
            last
        }
    }
}

/// Each value of a dictionary nests no deeper than the deepest of them.
pub proof fn lemma_dict_depth_bounds(entries: Seq<(Vec<u8>, Bencode)>, i: int)
    requires
        0 <= i < entries.len(),
    ensures
        entries[i].1.depth() <= dict_depth(entries),
    decreases entries.len(),
{
    if i < entries.len() - 1 {
        lemma_dict_depth_bounds(entries.drop_last(), i);
    }
}

/// The items of a list as mathematical objects.
pub open spec fn list_model(items: Seq<Bencode>) -> Seq<BencodeView>
    decreases items,
{
    if items.len() == 0 {
        Seq::empty()
    } else {
        list_model(items.drop_last()).push(items.last().model())
    }
}

/// The map that a dictionary's entries make, a later entry overriding an
/// earlier one with the same key.
pub open spec fn dict_model(entries: Seq<(Vec<u8>, Bencode)>) -> Map<Seq<u8>, BencodeView>
    decreases entries,
{
    if entries.len() == 0 {
        Map::empty()
    } else {
        dict_model(entries.drop_last()).insert(entries.last().0@, entries.last().1.model())
    }
}

/// The value that `serde_bencode::from_bytes` decodes from a byte string,
/// or `None` where it fails.
pub uninterp spec fn bencode_decoded(bytes: Seq<u8>) -> Option<BencodeView>;

/// The bytes that `serde_bencode::to_bytes` encodes a value as (it writes a
/// dictionary's keys in sorted order).
pub uninterp spec fn bencode_encoded(value: BencodeView) -> Seq<u8>;

/// Decodes with `serde_bencode::from_bytes::<Value>` and takes the result
/// over into a `Bencode`; the contract claims that the outcome is the one
/// that the crate gives for these bytes, and nothing of the error's text.
/// The crate's reader recurses once for each list or dictionary it opens
/// (`Deserializer::deserialize_any`, `visit_seq`, `visit_map`), with no
/// limit of its own, so the bytes must nest no deeper than `MAX_NESTING`;
/// the value it gives back nests as deeply as its bytes do.
#[verifier::external_body]
pub(crate) fn bencode_decode(bytes: &[u8]) -> (r: Result<Bencode, String>)
    requires
        nesting_depth(bytes@) <= MAX_NESTING,
    ensures
        match r {
            Ok(v) => bencode_decoded(bytes@) == Some(v.model()) && v.depth() <= nesting_depth(
                bytes@,
            ),
            Err(_) => bencode_decoded(bytes@) is None,
        },
{
    match serde_bencode::from_bytes::<Value>(bytes) {
        Ok(value) => Ok(from_value(value)),
        Err(e) => Err(e.to_string()),
    }
}

/// Encodes with `serde_bencode::to_bytes`, after taking the value over into
/// the crate's `Value`. The contract claims that the result is the one that
/// the crate gives for this value, and that it succeeds: on a `Value` the
/// serializer fails only when map keys and values are fed out of turn
/// (`SerializeMap::end_map`, `serialize_key`, `serialize_value`), which
/// `Value`'s own `Serialize` never does. Both the conversion and the
/// serializer recurse once per level, so the value must nest no deeper than
/// `MAX_NESTING`.
#[verifier::external_body]
pub(crate) fn bencode_encode(value: &Bencode) -> (r: Result<Vec<u8>, String>)
    requires
        value.depth() <= MAX_NESTING,
    ensures
        r is Ok,
        r matches Ok(bytes) ==> bencode_encoded(value.model()) == bytes@,
{
    match serde_bencode::to_bytes(&to_value(value)) {
        Ok(bytes) => Ok(bytes),
        Err(e) => Err(e.to_string()),
    }
}

/// Takes a `serde_bencode` value over into a `Bencode`, one variant for
/// one, a dictionary's entries in the order its map yields them. Only the
/// decoding wrapper calls it.
#[verifier::external_body]
fn from_value(value: Value) -> Bencode {
    match value {
        Value::Bytes(b) => Bencode::Bytes(b),
        Value::Int(i) => Bencode::Int(i),
        Value::List(items) => Bencode::List(items.into_iter().map(from_value).collect()),
        Value::Dict(map) => Bencode::Dict(map.into_iter().map(|(k, v)| (k, from_value(v))).collect()),
    }
}

/// Takes a `Bencode` over into a `serde_bencode` value, one variant for
/// one, a later dictionary entry replacing an earlier one with the same
/// key. Only the encoding wrapper calls it.
#[verifier::external_body]
fn to_value(value: &Bencode) -> Value {
    match value {
        Bencode::Bytes(b) => Value::Bytes(b.clone()),
        Bencode::Int(i) => Value::Int(*i),
        Bencode::List(items) => Value::List(items.iter().map(to_value).collect()),
        Bencode::Dict(entries) => Value::Dict(entries.iter().map(|(k, v)| (k.clone(), to_value(v))).collect()),
    }
}

/// Whether two byte strings are equal.
pub fn bytes_equal(a: &[u8], b: &[u8]) -> (r: bool)
    ensures
        r == (a@ == b@),
{
    if a.len() != b.len() {
        return false;
    }
    let mut i: usize = 0;
    while i < a.len()
        invariant
            i <= a@.len(),
            a@.len() == b@.len(),
            forall|j: int| 0 <= j < i ==> a@[j] == b@[j],
        decreases a@.len() - i,
    {
        if a[i] != b[i] {
            return false;
        }
        i = i + 1;
    }
    assert(a@ =~= b@);
    true
}

/// The position of the entry that gives `key` its value in a dictionary:
/// the last one with that key; `None` when no entry has it.
pub fn dict_find(entries: &Vec<(Vec<u8>, Bencode)>, key: &[u8]) -> (r: Option<usize>)
    ensures
        match r {
            Some(i) => {
                &&& i < entries@.len()
                &&& entries@[i as int].0@ == key@
                &&& forall|j: int| i < j < entries@.len() ==> entries@[j].0@ != key@
                &&& dict_model(entries@).contains_key(key@)
                &&& dict_model(entries@)[key@] == entries@[i as int].1.model()
                &&& entries@[i as int].1.depth() <= dict_depth(entries@)
            },
            None => !dict_model(entries@).contains_key(key@),
        },
{
    let mut i: usize = entries.len();
    assert(entries@.subrange(0, i as int) =~= entries@);
    while i > 0
        invariant
            i <= entries@.len(),
            dict_model(entries@).contains_key(key@) == dict_model(
                entries@.subrange(0, i as int),
            ).contains_key(key@),
            dict_model(entries@).contains_key(key@) ==> dict_model(entries@)[key@] == dict_model(
                entries@.subrange(0, i as int),
            )[key@],
            forall|j: int| i <= j < entries@.len() ==> entries@[j].0@ != key@,
        decreases i,
    {
        let ghost prefix = entries@.subrange(0, i as int);
        proof {
            assert(prefix.drop_last() =~= entries@.subrange(0, i - 1));
        }
        if bytes_equal(entries[i - 1].0.as_slice(), key) {
            proof {
                lemma_dict_depth_bounds(entries@, i - 1);
            }
            return Some(i - 1);
        }
        i = i - 1;
    }
    proof {
        assert(entries@.subrange(0, 0) =~= Seq::<(Vec<u8>, Bencode)>::empty());
    }
    None
}

} // verus!
