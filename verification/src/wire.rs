//! Documents on the wire.
//!
//! Encoding and decoding are left to the `bson` crate. What this module adds is
//! a mathematical picture of a document, `Fields`, and a contract over that
//! picture for every `bson` call the server makes. None of these contracts is
//! proved: each one restates what the crate's source shows.

use vstd::prelude::*;
use bson::Document;
use bson::Binary;
use bson::spec::BinarySubtype;

verus! {

/// The picture of one BSON value.
pub enum Value {
    /// A 32-bit integer.
    Int32(i32),
    /// A UTF-8 string.
    Text(Seq<char>),
    /// A boolean.
    Flag(bool),
    /// Binary data of the generic subtype.
    Blob(Seq<u8>),
    /// An array whose elements are all documents.
    Records(Seq<Seq<(Seq<char>, Value)>>),
    /// A value of any other kind; the code tells two such values apart.
    Other(nat),
}

/// The picture of a document: its entries in insertion order.
pub type Fields = Seq<(Seq<char>, Value)>;

/// Position of the entry stored under `key`, if there is one.
pub open spec fn position(f: Fields, key: Seq<char>) -> Option<int>
    decreases f.len(),
{
    if f.len() == 0 {
        None
    } else if f.last().0 == key {
        Some(f.len() - 1)
    } else {
        position(f.drop_last(), key)
    }
}

/// The value stored under `key`, if there is one.
pub open spec fn lookup(f: Fields, key: Seq<char>) -> Option<Value> {
    match position(f, key) {
        Some(i) => Some(f[i].1),
        None => None,
    }
}

/// `f` after storing `value` under `key`: an existing entry keeps its place and
/// takes the new value, a new entry goes to the end.
pub open spec fn put(f: Fields, key: Seq<char>, value: Value) -> Fields {
    match position(f, key) {
        Some(i) => f.update(i, (key, value)),
        None => f.push((key, value)),
    }
}

#[verifier::external_type_specification]
#[verifier::external_body]
pub struct ExDocument(Document);

/// The entries of a document, in insertion order.
pub uninterp spec fn fields(d: Document) -> Fields;

/// The bytes `bson::to_vec` gives for a document with these entries, or `None`
/// where it reports an error.
pub uninterp spec fn wire_image(f: Fields) -> Option<Seq<u8>>;

/// The entries of the document that `bson::from_slice` reads from these bytes,
/// or `None` where it reports an error.
pub uninterp spec fn parsed(bytes: Seq<u8>) -> Option<Fields>;

/// `Document::new`: a document without entries.
#[verifier::external_body]
pub(crate) fn doc_new() -> (d: Document)
    ensures
        fields(d) == Seq::<(Seq<char>, Value)>::empty(),
{
    Document::new()
}

/// `Document::insert` with an `i32`, which becomes a 32-bit integer value.
#[verifier::external_body]
pub(crate) fn doc_put_i32(d: &mut Document, key: &str, value: i32)
    ensures
        fields(*final(d)) == put(fields(*old(d)), key@, Value::Int32(value)),
{
    d.insert(key, value);
}

/// `Document::insert` with a `&str`, which becomes a string value.
#[verifier::external_body]
pub(crate) fn doc_put_str(d: &mut Document, key: &str, value: &str)
    ensures
        fields(*final(d)) == put(fields(*old(d)), key@, Value::Text(value@)),
{
    d.insert(key, value);
}

/// `Document::insert` with a `bool`, which becomes a boolean value.
#[verifier::external_body]
pub(crate) fn doc_put_bool(d: &mut Document, key: &str, value: bool)
    ensures
        fields(*final(d)) == put(fields(*old(d)), key@, Value::Flag(value)),
{
    d.insert(key, value);
}

/// `Document::insert` with a `Binary` of the generic subtype holding `value`.
#[verifier::external_body]
pub(crate) fn doc_put_binary(d: &mut Document, key: &str, value: &[u8])
    ensures
        fields(*final(d)) == put(fields(*old(d)), key@, Value::Blob(value@)),
{
    d.insert(key, Binary { subtype: BinarySubtype::Generic, bytes: value.to_vec() });
}

/// `Document::insert` with a `Vec<Document>`, which becomes an array holding
/// those documents in order.
#[verifier::external_body]
pub(crate) fn doc_put_records(d: &mut Document, key: &str, value: Vec<Document>)
    ensures
        fields(*final(d)) == put(
            fields(*old(d)),
            key@,
            Value::Records(Seq::new(value@.len(), |i: int| fields(value@[i]))),
        ),
{
    d.insert(key, value);
}

/// `Document::get_i32`: the value under `key` where it is a 32-bit integer.
#[verifier::external_body]
pub(crate) fn doc_get_i32(d: &Document, key: &str) -> (r: Option<i32>)
    ensures
        r == match lookup(fields(*d), key@) {
            Some(Value::Int32(v)) => Some(v),
            _ => None,
        },
{
    d.get_i32(key).ok()
}

/// `Document::get_bool`: the value under `key` where it is a boolean.
#[verifier::external_body]
pub(crate) fn doc_get_bool(d: &Document, key: &str) -> (r: Option<bool>)
    ensures
        r == match lookup(fields(*d), key@) {
            Some(Value::Flag(v)) => Some(v),
            _ => None,
        },
{
    d.get_bool(key).ok()
}

/// `Document::get_str`: the value under `key` where it is a string.
#[verifier::external_body]
pub(crate) fn doc_get_str(d: &Document, key: &str) -> (r: Option<String>)
    ensures
        match lookup(fields(*d), key@) {
            Some(Value::Text(v)) => r matches Some(s) && s@ == v,
            _ => r is None,
        },
{
    match d.get_str(key) {
        Ok(s) => Some(s.to_string()),
        Err(_) => None,
    }
}

/// `Document::get_binary_generic`: the value under `key` where it is binary
/// data of the generic subtype.
#[verifier::external_body]
pub(crate) fn doc_get_binary_generic(d: &Document, key: &str) -> (r: Option<Vec<u8>>)
    ensures
        match lookup(fields(*d), key@) {
            Some(Value::Blob(v)) => r matches Some(b) && b@ == v,
            _ => r is None,
        },
{
    match d.get_binary_generic(key) {
        Ok(b) => Some(b.clone()),
        Err(_) => None,
    }
}

/// `bson::to_vec` on a document: its bytes depend on the entries alone.
#[verifier::external_body]
pub(crate) fn doc_to_vec(d: &Document) -> (r: Option<Vec<u8>>)
    ensures
        match wire_image(fields(*d)) {
            Some(b) => r matches Some(v) && v@ == b,
            None => r is None,
        },
{
    bson::to_vec(d).ok()
}

/// `bson::from_slice` read as a document.
#[verifier::external_body]
pub(crate) fn doc_from_slice(bytes: &[u8]) -> (r: Option<Document>)
    ensures
        match parsed(bytes@) {
            Some(f) => r matches Some(d) && fields(d) == f,
            None => r is None,
        },
{
    bson::from_slice::<Document>(bytes).ok()
}

} // verus!
