//! The compound kinds of value.
use vstd::prelude::*;

use std::collections::VecDeque;

use crate::model::ValueModel;
use crate::Value;

verus! {

broadcast use crate::group_deque_models;

/// A table: a hash and a list of entries.
#[derive(Debug, PartialEq)]
pub struct Table {
    pub hash: u64,
    pub entries: VecDeque<Entry>,
}

/// One entry of a table: an id and a value.
#[derive(Debug, PartialEq)]
pub struct Entry {
    pub id: u64,
    pub val: Value,
}

/// An error code.
#[derive(Debug, PartialEq)]
pub struct Error {
    pub inner: i64,
}

/// A value together with a reference number.
#[derive(Debug, PartialEq)]
pub struct Handle {
    pub value: Box<Value>,
    pub ref_num: i64,
}

/// A variant: an index and a value, or nothing.
#[derive(Debug, PartialEq)]
pub struct Variant {
    pub inner: Option<(i64, Box<Value>)>,
}

/// An ordered list of field values.
#[derive(Debug, PartialEq)]
pub struct Structure {
    pub values: VecDeque<Value>,
}

/// An ordered list of values.
#[derive(Debug, PartialEq)]
pub struct Array {
    pub values: VecDeque<Value>,
}

/// An ordered list of key/value pairs.
#[derive(Debug, PartialEq)]
pub struct Mapping {
    pub entries: VecDeque<(Value, Value)>,
}

/// A byte string.
#[derive(Debug, PartialEq)]
pub struct Bytes {
    pub inner: Vec<u8>,
}

/// A text string, held as its UTF-8 bytes.
#[derive(Debug, PartialEq)]
pub struct String {
    pub inner: Vec<u8>,
}

impl Variant {
    /// The empty variant.
    pub fn new_none() -> (r: Self)
        ensures
            r.inner is None,
    {
        Self { inner: None }
    }

    /// The variant with index 0 holding `val`.
    pub fn new_some(val: Value) -> (r: Self)
        ensures
            r.inner == Some((0i64, Box::new(val))),
    {
        Self::new_variant(0, val)
    }

    /// The variant with index `index` holding `val`.
    pub fn new_variant(index: i64, val: Value) -> (r: Self)
        ensures
            r.inner == Some((index, Box::new(val))),
    {
        Self { inner: Some((index, Box::new(val))) }
    }
}

impl Structure {
    /// The structure with no fields.
    pub fn new() -> (r: Self)
        ensures
            r.values@ == Seq::<Value>::empty(),
    {
        Self { values: VecDeque::new() }
    }
}

impl Mapping {
    /// The mapping with no pairs.
    pub fn new() -> (r: Self)
        ensures
            r.entries@ == Seq::<(Value, Value)>::empty(),
    {
        Self { entries: VecDeque::new() }
    }
}

impl String {
    /// The string holding the UTF-8 encoding of `s`.
    pub fn from_std(s: std::string::String) -> (r: Self)
        ensures
            r.inner@ == vstd::utf8::encode_utf8(s@),
    {
        Self { inner: vstd::slice::slice_to_vec(s.as_str().as_bytes()) }
    }
}

/// The items of `v`, in order.
pub(crate) fn deque_of<T>(v: Vec<T>) -> (d: VecDeque<T>)
    ensures
        d@ == v@,
{
    let ghost all = v@;
    let mut v = v;
    let mut d: VecDeque<T> = VecDeque::new();
    while v.len() > 0
        invariant
            v@ + d@ == all,
        decreases v.len(),
    {
        let ghost before = d@;
        let ghost front = v@;
        match v.pop() {
            Some(x) => {
                d.push_front(x);
                assert(v@ + d@ =~= front.drop_last() + (seq![front.last()] + before));
                assert(front =~= front.drop_last().push(front.last()));
                assert(v@ + d@ =~= front + before);
            },
            None => {},
        }
    }
    assert(v@ =~= Seq::<T>::empty());
    assert(d@ =~= v@ + d@);
    d
}

impl From<Vec<Value>> for Array {
    /// The array of the values of `f`, in order.
    fn from(f: Vec<Value>) -> (r: Self)
        ensures
            r.values@ == f@,
    {
        Self { values: deque_of(f) }
    }
}

impl vstd::std_specs::convert::FromSpecImpl<Vec<Value>> for Array {
    /// A spec value of this type cannot be built from a sequence, so the result is
    /// stated by the `ensures` of `from` rather than here.
    open spec fn obeys_from_spec() -> bool {
        false
    }

    open spec fn from_spec(f: Vec<Value>) -> Self {
        arbitrary()
    }
}

impl From<Vec<u8>> for Bytes {
    fn from(f: Vec<u8>) -> (r: Self) {
        Self { inner: f }
    }
}

impl vstd::std_specs::convert::FromSpecImpl<Vec<u8>> for Bytes {
    open spec fn obeys_from_spec() -> bool {
        true
    }

    open spec fn from_spec(f: Vec<u8>) -> Self {
        Bytes { inner: f }
    }
}

impl From<std::string::String> for String {
    /// The string holding the UTF-8 encoding of `f`.
    fn from(f: std::string::String) -> (r: String)
        ensures
            r.inner@ == vstd::utf8::encode_utf8(f@),
    {
        String::from_std(f)
    }
}

impl vstd::std_specs::convert::FromSpecImpl<std::string::String> for String {
    /// A spec value of this type cannot be built from a byte sequence, so the
    /// result is stated by the `ensures` of `from` rather than here.
    open spec fn obeys_from_spec() -> bool {
        false
    }

    open spec fn from_spec(f: std::string::String) -> String {
        arbitrary()
    }
}

impl From<std::string::String> for Value {
    /// The string value holding the UTF-8 encoding of `f`.
    fn from(f: std::string::String) -> (r: Value)
        ensures
            r@ == ValueModel::String(vstd::utf8::encode_utf8(f@)),
    {
        Value::String(String::from_std(f))
    }
}

impl vstd::std_specs::convert::FromSpecImpl<std::string::String> for Value {
    /// A spec value of this type cannot be built from a byte sequence, so the
    /// result is stated by the `ensures` of `from` rather than here.
    open spec fn obeys_from_spec() -> bool {
        false
    }

    open spec fn from_spec(f: std::string::String) -> Value {
        Value::Nil
    }
}

} // verus!
