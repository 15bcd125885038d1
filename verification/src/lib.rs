//! A self-describing binary value format: a tree of integers, floats, byte
//! strings, arrays, structures, mappings, variants, tables, handles and
//! errors, each introduced by a one-byte tag.
pub mod de;
pub mod extent;
pub mod laws;
pub mod model;
pub mod put;
pub mod ser;
pub mod take;
pub mod values;

use std::collections::VecDeque;

use vstd::prelude::*;
use vstd::std_specs::vecdeque::VecDequeAdditionalSpecFns;

use crate::model::{encode, take_value, Outcome, ValueModel};

verus! {

/// One value of the format. `F32` and `F64` hold the IEEE-754 bit patterns of
/// their floats.
#[derive(Debug, PartialEq)]
pub enum Value {
    FixInt(i8),
    U8(u8),
    U16(u16),
    U32(u32),
    U64(u64),
    I8(i8),
    I16(i16),
    I32(i32),
    I64(i64),
    F32(u32),
    F64(u64),
    Table(values::Table),
    Error(values::Error),
    Handle(values::Handle),
    Variant(values::Variant),
    Structure(values::Structure),
    Array(values::Array),
    Mapping(values::Mapping),
    Bytes(values::Bytes),
    String(values::String),
    Nil,
}

/// The model of a value.
pub open spec fn model_of(v: Value) -> ValueModel
    decreases v,
{
    match v {
        Value::FixInt(n) => ValueModel::FixInt(n),
        Value::U8(n) => ValueModel::U8(n),
        Value::U16(n) => ValueModel::U16(n),
        Value::U32(n) => ValueModel::U32(n),
        Value::U64(n) => ValueModel::U64(n),
        Value::I8(n) => ValueModel::I8(n),
        Value::I16(n) => ValueModel::I16(n),
        Value::I32(n) => ValueModel::I32(n),
        Value::I64(n) => ValueModel::I64(n),
        Value::F32(b) => ValueModel::F32(b),
        Value::F64(b) => ValueModel::F64(b),
        Value::Table(t) => ValueModel::Table { hash: t.hash, entries: deque_entries_model(t.entries) },
        Value::Error(e) => ValueModel::Error(e.inner),
        Value::Handle(h) => ValueModel::Handle {
            value: Box::new(model_of(*h.value)),
            ref_num: h.ref_num,
        },
        Value::Variant(v) => ValueModel::Variant(
            match v.inner {
                Some((index, b)) => Some((index, Box::new(model_of(*b)))),
                None => None,
            },
        ),
        Value::Structure(s) => ValueModel::Structure(deque_values_model(s.values)),
        Value::Array(a) => ValueModel::Array(deque_values_model(a.values)),
        Value::Mapping(m) => ValueModel::Mapping(deque_pairs_model(m.entries)),
        Value::Bytes(b) => ValueModel::Bytes(b.inner@),
        Value::String(s) => ValueModel::String(s.inner@),
        Value::Nil => ValueModel::Nil,
    }
}

/// The models of the values in a queue, in order; the same as [`values_model`] of
/// its view.
pub open spec fn deque_values_model(d: VecDeque<Value>) -> Seq<ValueModel>
    decreases d,
{
    Seq::new(
        d@.len(),
        |i: int|
            if 0 <= i < d@.len() {
                model_of(d[i])
            } else {
                ValueModel::Nil
            },
    )
}

/// The models of the table entries in a queue, in order; the same as
/// [`entries_model`] of its view.
pub open spec fn deque_entries_model(d: VecDeque<values::Entry>) -> Seq<(u64, ValueModel)>
    decreases d,
{
    Seq::new(
        d@.len(),
        |i: int|
            if 0 <= i < d@.len() {
                (d[i].id, model_of(d[i].val))
            } else {
                (0u64, ValueModel::Nil)
            },
    )
}

/// The models of the key/value pairs in a queue, in order; the same as
/// [`pairs_model`] of its view.
pub open spec fn deque_pairs_model(d: VecDeque<(Value, Value)>) -> Seq<(ValueModel, ValueModel)>
    decreases d,
{
    Seq::new(
        d@.len(),
        |i: int|
            if 0 <= i < d@.len() {
                (model_of(d[i].0), model_of(d[i].1))
            } else {
                (ValueModel::Nil, ValueModel::Nil)
            },
    )
}

/// The models of a sequence of values.
pub open spec fn values_model(s: Seq<Value>) -> Seq<ValueModel>
    decreases s,
{
    Seq::new(
        s.len(),
        |i: int|
            if 0 <= i < s.len() {
                model_of(s[i])
            } else {
                ValueModel::Nil
            },
    )
}

/// The models of a sequence of table entries.
pub open spec fn entries_model(s: Seq<values::Entry>) -> Seq<(u64, ValueModel)>
    decreases s,
{
    Seq::new(
        s.len(),
        |i: int|
            if 0 <= i < s.len() {
                (s[i].id, model_of(s[i].val))
            } else {
                (0u64, ValueModel::Nil)
            },
    )
}

/// The models of a sequence of key/value pairs.
pub open spec fn pairs_model(s: Seq<(Value, Value)>) -> Seq<(ValueModel, ValueModel)>
    decreases s,
{
    Seq::new(
        s.len(),
        |i: int|
            if 0 <= i < s.len() {
                (model_of(s[i].0), model_of(s[i].1))
            } else {
                (ValueModel::Nil, ValueModel::Nil)
            },
    )
}

/// The models of the values in a queue are those of its view.
pub broadcast proof fn lemma_deque_values_model(d: VecDeque<Value>)
    ensures
        #[trigger] deque_values_model(d) == values_model(d@),
{
    assert(deque_values_model(d) =~= values_model(d@));
}

/// The models of the table entries in a queue are those of its view.
pub broadcast proof fn lemma_deque_entries_model(d: VecDeque<values::Entry>)
    ensures
        #[trigger] deque_entries_model(d) == entries_model(d@),
{
    assert(deque_entries_model(d) =~= entries_model(d@));
}

/// The models of the key/value pairs in a queue are those of its view.
pub broadcast proof fn lemma_deque_pairs_model(d: VecDeque<(Value, Value)>)
    ensures
        #[trigger] deque_pairs_model(d) == pairs_model(d@),
{
    assert(deque_pairs_model(d) =~= pairs_model(d@));
}

/// The models of the queues in values are those of their views.
pub broadcast group group_deque_models {
    lemma_deque_values_model,
    lemma_deque_entries_model,
    lemma_deque_pairs_model,
}

impl View for Value {
    type V = ValueModel;

    open spec fn view(&self) -> ValueModel {
        model_of(*self)
    }
}

impl Value {
    /// Reads one value from the front of `bytes`; returns the number of bytes the
    /// reader reports as used, and the value.
    pub fn take_from(bytes: &[u8]) -> (r: Option<(usize, Value)>)
        requires
            bytes@.len() < usize::MAX,
            !(take_value(bytes@) is Abort),
        ensures
            match take_value(bytes@) {
                Outcome::Done(n, m) => r matches Some((k, v)) && k == n && v@ == m,
                Outcome::Fail => r is None,
                Outcome::Abort => true,
            },
            r matches Some((k, _)) ==> 1 <= k <= bytes@.len() + 1,
    {
        match Self::take_from_raw(bytes) {
            Ok(r) => r,
            Err(_) => None,
        }
    }

    /// Whether reading `bytes` reaches what this format does not handle at all
    /// (the inputs that [`Value::take_from`] and [`Value::parse`] leave out).
    pub fn aborts(bytes: &[u8]) -> (r: bool)
        requires
            bytes@.len() < usize::MAX,
        ensures
            r == (take_value(bytes@) is Abort),
    {
        Self::take_from_raw(bytes).is_err()
    }

    /// Reads one value from the front of `bytes`.
    pub fn parse(bytes: &[u8]) -> (r: Option<Self>)
        requires
            bytes@.len() < usize::MAX,
            !(take_value(bytes@) is Abort),
        ensures
            match take_value(bytes@) {
                Outcome::Done(_, m) => r matches Some(v) && v@ == m,
                Outcome::Fail => r is None,
                Outcome::Abort => true,
            },
    {
        let (_, val) = Self::take_from(bytes)?;
        Some(val)
    }

    /// Appends the encoding of `self` to `writer`, and returns its length, which is
    /// `self.expected_size()`.
    pub fn write(&self, writer: &mut Vec<u8>) -> (n: usize)
        requires
            encode(self@).len() <= usize::MAX,
        ensures
            final(writer)@ == old(writer)@ + encode(self@),
            n == encode(self@).len(),
    {
        let expected = self.expected_size() as usize;
        let written = self.write_to(writer);
        assert(written == expected);
        expected
    }
}

impl From<values::Table> for Value {
    fn from(val: values::Table) -> (r: Value) {
        Value::Table(val)
    }
}

impl vstd::std_specs::convert::FromSpecImpl<values::Table> for Value {
    open spec fn obeys_from_spec() -> bool {
        true
    }

    open spec fn from_spec(val: values::Table) -> Value {
        Value::Table(val)
    }
}

impl From<values::Error> for Value {
    fn from(val: values::Error) -> (r: Value) {
        Value::Error(val)
    }
}

impl vstd::std_specs::convert::FromSpecImpl<values::Error> for Value {
    open spec fn obeys_from_spec() -> bool {
        true
    }

    open spec fn from_spec(val: values::Error) -> Value {
        Value::Error(val)
    }
}

impl From<values::Handle> for Value {
    fn from(val: values::Handle) -> (r: Value) {
        Value::Handle(val)
    }
}

impl vstd::std_specs::convert::FromSpecImpl<values::Handle> for Value {
    open spec fn obeys_from_spec() -> bool {
        true
    }

    open spec fn from_spec(val: values::Handle) -> Value {
        Value::Handle(val)
    }
}

impl From<values::Variant> for Value {
    fn from(val: values::Variant) -> (r: Value) {
        Value::Variant(val)
    }
}

impl vstd::std_specs::convert::FromSpecImpl<values::Variant> for Value {
    open spec fn obeys_from_spec() -> bool {
        true
    }

    open spec fn from_spec(val: values::Variant) -> Value {
        Value::Variant(val)
    }
}

impl From<values::Structure> for Value {
    fn from(val: values::Structure) -> (r: Value) {
        Value::Structure(val)
    }
}

impl vstd::std_specs::convert::FromSpecImpl<values::Structure> for Value {
    open spec fn obeys_from_spec() -> bool {
        true
    }

    open spec fn from_spec(val: values::Structure) -> Value {
        Value::Structure(val)
    }
}

impl From<values::Array> for Value {
    fn from(val: values::Array) -> (r: Value) {
        Value::Array(val)
    }
}

impl vstd::std_specs::convert::FromSpecImpl<values::Array> for Value {
    open spec fn obeys_from_spec() -> bool {
        true
    }

    open spec fn from_spec(val: values::Array) -> Value {
        Value::Array(val)
    }
}

impl From<values::Mapping> for Value {
    fn from(val: values::Mapping) -> (r: Value) {
        Value::Mapping(val)
    }
}

impl vstd::std_specs::convert::FromSpecImpl<values::Mapping> for Value {
    open spec fn obeys_from_spec() -> bool {
        true
    }

    open spec fn from_spec(val: values::Mapping) -> Value {
        Value::Mapping(val)
    }
}

impl From<values::Bytes> for Value {
    fn from(val: values::Bytes) -> (r: Value) {
        Value::Bytes(val)
    }
}

impl vstd::std_specs::convert::FromSpecImpl<values::Bytes> for Value {
    open spec fn obeys_from_spec() -> bool {
        true
    }

    open spec fn from_spec(val: values::Bytes) -> Value {
        Value::Bytes(val)
    }
}

impl From<values::String> for Value {
    fn from(val: values::String) -> (r: Value) {
        Value::String(val)
    }
}

impl vstd::std_specs::convert::FromSpecImpl<values::String> for Value {
    open spec fn obeys_from_spec() -> bool {
        true
    }

    open spec fn from_spec(val: values::String) -> Value {
        Value::String(val)
    }
}

impl From<u8> for Value {
    fn from(val: u8) -> (r: Value) {
        Value::U8(val)
    }
}

impl vstd::std_specs::convert::FromSpecImpl<u8> for Value {
    open spec fn obeys_from_spec() -> bool {
        true
    }

    open spec fn from_spec(val: u8) -> Value {
        Value::U8(val)
    }
}

impl From<u16> for Value {
    fn from(val: u16) -> (r: Value) {
        Value::U16(val)
    }
}

impl vstd::std_specs::convert::FromSpecImpl<u16> for Value {
    open spec fn obeys_from_spec() -> bool {
        true
    }

    open spec fn from_spec(val: u16) -> Value {
        Value::U16(val)
    }
}

impl From<u32> for Value {
    fn from(val: u32) -> (r: Value) {
        Value::U32(val)
    }
}

impl vstd::std_specs::convert::FromSpecImpl<u32> for Value {
    open spec fn obeys_from_spec() -> bool {
        true
    }

    open spec fn from_spec(val: u32) -> Value {
        Value::U32(val)
    }
}

impl From<u64> for Value {
    fn from(val: u64) -> (r: Value) {
        Value::U64(val)
    }
}

impl vstd::std_specs::convert::FromSpecImpl<u64> for Value {
    open spec fn obeys_from_spec() -> bool {
        true
    }

    open spec fn from_spec(val: u64) -> Value {
        Value::U64(val)
    }
}

impl From<i8> for Value {
    fn from(val: i8) -> (r: Value) {
        Value::I8(val)
    }
}

impl vstd::std_specs::convert::FromSpecImpl<i8> for Value {
    open spec fn obeys_from_spec() -> bool {
        true
    }

    open spec fn from_spec(val: i8) -> Value {
        Value::I8(val)
    }
}

impl From<i16> for Value {
    fn from(val: i16) -> (r: Value) {
        Value::I16(val)
    }
}

impl vstd::std_specs::convert::FromSpecImpl<i16> for Value {
    open spec fn obeys_from_spec() -> bool {
        true
    }

    open spec fn from_spec(val: i16) -> Value {
        Value::I16(val)
    }
}

impl From<i32> for Value {
    fn from(val: i32) -> (r: Value) {
        Value::I32(val)
    }
}

impl vstd::std_specs::convert::FromSpecImpl<i32> for Value {
    open spec fn obeys_from_spec() -> bool {
        true
    }

    open spec fn from_spec(val: i32) -> Value {
        Value::I32(val)
    }
}

impl From<i64> for Value {
    fn from(val: i64) -> (r: Value) {
        Value::I64(val)
    }
}

impl vstd::std_specs::convert::FromSpecImpl<i64> for Value {
    open spec fn obeys_from_spec() -> bool {
        true
    }

    open spec fn from_spec(val: i64) -> Value {
        Value::I64(val)
    }
}

} // verus!
