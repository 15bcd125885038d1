//! Writing values: the compact form of integers, and the byte encoding.
use std::collections::VecDeque;

use vstd::bytes::*;
use vstd::prelude::*;

use crate::model::{
    encode, encode_blob, encode_entries, encode_int, encode_pairs, encode_scalar, encode_uint, is_scalar,
    encode_values, put_signed, put_unsigned, ValueModel,
};
use crate::values;
use crate::{entries_model, model_of, pairs_model, values_model, Value};

verus! {

broadcast use crate::group_deque_models;

/// Integers that have a compact value form.
pub trait PutValue: Sized {
    /// The compact form of `self`.
    spec fn put_model(self) -> ValueModel;

    /// Builds the smallest value that holds `self`.
    fn put(self) -> (v: Value)
        ensures
            v@ == self.put_model(),
    ;
}

impl PutValue for i8 {
    open spec fn put_model(self) -> ValueModel {
        put_signed(self as i64)
    }

    fn put(self) -> (v: Value) {
        if -64 <= self {
            Value::FixInt(self)
        } else {
            Value::I8(self)
        }
    }
}

impl PutValue for i16 {
    open spec fn put_model(self) -> ValueModel {
        put_signed(self as i64)
    }

    fn put(self) -> (v: Value) {
        if -64 <= self && self <= 127 {
            Value::FixInt(self as i8)
        } else if -128 <= self && self <= 127 {
            Value::I8(self as i8)
        } else {
            Value::I16(self)
        }
    }
}

impl PutValue for i32 {
    open spec fn put_model(self) -> ValueModel {
        put_signed(self as i64)
    }

    fn put(self) -> (v: Value) {
        if -64 <= self && self <= 127 {
            Value::FixInt(self as i8)
        } else if -128 <= self && self <= 127 {
            Value::I8(self as i8)
        } else if -0x8000 <= self && self <= 0x7fff {
            Value::I16(self as i16)
        } else {
            Value::I32(self)
        }
    }
}

impl PutValue for i64 {
    open spec fn put_model(self) -> ValueModel {
        put_signed(self)
    }

    fn put(self) -> (v: Value) {
        if -64 <= self && self <= 127 {
            Value::FixInt(self as i8)
        } else if -128 <= self && self <= 127 {
            Value::I8(self as i8)
        } else if -0x8000 <= self && self <= 0x7fff {
            Value::I16(self as i16)
        } else if -0x8000_0000 <= self && self <= 0x7fff_ffff {
            Value::I32(self as i32)
        } else {
            Value::I64(self)
        }
    }
}

impl PutValue for u8 {
    open spec fn put_model(self) -> ValueModel {
        put_unsigned(self as u64)
    }

    fn put(self) -> (v: Value) {
        if self <= 127 {
            Value::FixInt(self as i8)
        } else {
            Value::U8(self)
        }
    }
}

impl PutValue for u16 {
    open spec fn put_model(self) -> ValueModel {
        put_unsigned(self as u64)
    }

    fn put(self) -> (v: Value) {
        if self <= 127 {
            Value::FixInt(self as i8)
        } else if self <= 0xff {
            Value::U8(self as u8)
        } else {
            Value::U16(self)
        }
    }
}

impl PutValue for u32 {
    open spec fn put_model(self) -> ValueModel {
        put_unsigned(self as u64)
    }

    fn put(self) -> (v: Value) {
        if self <= 127 {
            Value::FixInt(self as i8)
        } else if self <= 0xff {
            Value::U8(self as u8)
        } else if self <= 0xffff {
            Value::U16(self as u16)
        } else {
            Value::U32(self)
        }
    }
}

impl PutValue for u64 {
    open spec fn put_model(self) -> ValueModel {
        put_unsigned(self)
    }

    fn put(self) -> (v: Value) {
        if self <= 127 {
            Value::FixInt(self as i8)
        } else if self <= 0xff {
            Value::U8(self as u8)
        } else if self <= 0xffff {
            Value::U16(self as u16)
        } else if self <= 0xffff_ffff {
            Value::U32(self as u32)
        } else {
            Value::U64(self)
        }
    }
}


// ---------------------------------------------------------------------------
// Facts about the encodings of sequences
// ---------------------------------------------------------------------------
/// The little-endian forms have their fixed lengths.
pub(crate) proof fn lemma_le_lengths()
    ensures
        forall|x: u16| #[trigger] spec_u16_to_le_bytes(x).len() == 2,
        forall|x: u32| #[trigger] spec_u32_to_le_bytes(x).len() == 4,
        forall|x: u64| #[trigger] spec_u64_to_le_bytes(x).len() == 8,
{
    lemma_auto_spec_u16_to_from_le_bytes();
    lemma_auto_spec_u32_to_from_le_bytes();
    lemma_auto_spec_u64_to_from_le_bytes();
}

/// A compact integer takes at most nine bytes.
proof fn lemma_compact_len(n: u64, k: i64)
    ensures
        1 <= encode_uint(n).len() <= 9,
        1 <= encode_int(k).len() <= 9,
        encode(put_unsigned(n)) == encode_uint(n),
        encode(put_signed(k)) == encode_int(k),
{
    lemma_le_lengths();
}

/// Extending a prefix of a value list by one value extends its encoding by that value's.
proof fn lemma_values_step(s: Seq<ValueModel>, i: int)
    requires
        0 <= i < s.len(),
    ensures
        encode_values(s.take(i + 1)) == encode_values(s.take(i)) + encode(s[i]),
{
    assert(s.take(i + 1).drop_last() =~= s.take(i));
}

/// The encoding of a prefix of a value list is no longer than that of the list.
proof fn lemma_values_prefix_len(s: Seq<ValueModel>, i: int)
    requires
        0 <= i <= s.len(),
    ensures
        encode_values(s.take(i)).len() <= encode_values(s).len(),
    decreases s.len() - i,
{
    if i == s.len() {
        assert(s.take(i) =~= s);
    } else {
        lemma_values_step(s, i);
        lemma_values_prefix_len(s, i + 1);
    }
}

/// Extending a prefix of an entry list by one entry extends its encoding by that entry's.
proof fn lemma_entries_step(s: Seq<(u64, ValueModel)>, i: int)
    requires
        0 <= i < s.len(),
    ensures
        encode_entries(s.take(i + 1)) == encode_entries(s.take(i)) + encode_entry_of(s[i]),
{
    assert(s.take(i + 1).drop_last() =~= s.take(i));
}

/// The encoding of a prefix of an entry list is no longer than that of the list.
proof fn lemma_entries_prefix_len(s: Seq<(u64, ValueModel)>, i: int)
    requires
        0 <= i <= s.len(),
    ensures
        encode_entries(s.take(i)).len() <= encode_entries(s).len(),
    decreases s.len() - i,
{
    if i == s.len() {
        assert(s.take(i) =~= s);
    } else {
        lemma_entries_step(s, i);
        lemma_entries_prefix_len(s, i + 1);
    }
}

/// Extending a prefix of a pair list by one pair extends its encoding by that pair's.
proof fn lemma_pairs_step(s: Seq<(ValueModel, ValueModel)>, i: int)
    requires
        0 <= i < s.len(),
    ensures
        encode_pairs(s.take(i + 1)) == encode_pairs(s.take(i)) + encode(s[i].0) + encode(s[i].1),
{
    assert(s.take(i + 1).drop_last() =~= s.take(i));
}

/// The encoding of a prefix of a pair list is no longer than that of the list.
proof fn lemma_pairs_prefix_len(s: Seq<(ValueModel, ValueModel)>, i: int)
    requires
        0 <= i <= s.len(),
    ensures
        encode_pairs(s.take(i)).len() <= encode_pairs(s).len(),
    decreases s.len() - i,
{
    if i == s.len() {
        assert(s.take(i) =~= s);
    } else {
        lemma_pairs_step(s, i);
        lemma_pairs_prefix_len(s, i + 1);
    }
}

/// The encoding of one table entry.
pub open spec fn encode_entry_of(e: (u64, ValueModel)) -> Seq<u8> {
    encode_uint(e.0) + encode_uint(encode(e.1).len() as u64) + encode(e.1)
}

// ---------------------------------------------------------------------------
// Writing
// ---------------------------------------------------------------------------
impl Value {
    /// Appends the encoding of the scalar `self` to `out`, and returns its length.
    pub(crate) fn write_scalar(&self, out: &mut Vec<u8>) -> (n: usize)
        requires
            is_scalar(self@),
        ensures
            final(out)@ == old(out)@ + encode_scalar(self@),
            n == encode_scalar(self@).len(),
    {
        proof {
            lemma_le_lengths();
        }
        let ghost start = out@;
        match self {
            Value::FixInt(v) => {
                out.push(*v as u8);
                assert(out@ =~= start + encode_scalar(self@));
                1
            },
            Value::U8(v) => {
                out.push(0x80);
                out.push(*v);
                assert(out@ =~= start + encode_scalar(self@));
                2
            },
            Value::U16(v) => {
                out.push(0x81);
                let mut b = u16_to_le_bytes(*v);
                out.append(&mut b);
                assert(out@ =~= start + encode_scalar(self@));
                3
            },
            Value::U32(v) => {
                out.push(0x82);
                let mut b = u32_to_le_bytes(*v);
                out.append(&mut b);
                assert(out@ =~= start + encode_scalar(self@));
                5
            },
            Value::U64(v) => {
                out.push(0x83);
                let mut b = u64_to_le_bytes(*v);
                out.append(&mut b);
                assert(out@ =~= start + encode_scalar(self@));
                9
            },
            Value::I8(v) => {
                out.push(0x84);
                out.push(*v as u8);
                assert(out@ =~= start + encode_scalar(self@));
                2
            },
            Value::I16(v) => {
                out.push(0x85);
                let mut b = u16_to_le_bytes(*v as u16);
                out.append(&mut b);
                assert(out@ =~= start + encode_scalar(self@));
                3
            },
            Value::I32(v) => {
                out.push(0x86);
                let mut b = u32_to_le_bytes(*v as u32);
                out.append(&mut b);
                assert(out@ =~= start + encode_scalar(self@));
                5
            },
            Value::I64(v) => {
                out.push(0x87);
                let mut b = u64_to_le_bytes(*v as u64);
                out.append(&mut b);
                assert(out@ =~= start + encode_scalar(self@));
                9
            },
            Value::F32(v) => {
                out.push(0x88);
                let mut b = u32_to_le_bytes(*v);
                out.append(&mut b);
                assert(out@ =~= start + encode_scalar(self@));
                5
            },
            Value::F64(v) => {
                out.push(0x89);
                let mut b = u64_to_le_bytes(*v);
                out.append(&mut b);
                assert(out@ =~= start + encode_scalar(self@));
                9
            },
            _ => {
                out.push(0xbe);
                assert(out@ =~= start + encode_scalar(self@));
                1
            },
        }
    }
}

impl Value {
    /// Appends the encoding of `self` to `out`, and returns its length.
    pub(crate) fn write_to(&self, out: &mut Vec<u8>) -> (n: usize)
        requires
            encode(self@).len() <= usize::MAX,
        ensures
            final(out)@ == old(out)@ + encode(self@),
            n == encode(self@).len(),
        decreases self,
    {
        match self {
            Value::Table(t) => t.write_to(out),
            Value::Error(e) => e.write_to(out),
            Value::Handle(h) => h.write_to(out),
            Value::Variant(v) => v.write_to(out),
            Value::Structure(s) => s.write_to(out),
            Value::Array(a) => a.write_to(out),
            Value::Mapping(m) => m.write_to(out),
            Value::Bytes(b) => b.write_to(out),
            Value::String(s) => s.write_to(out),
            _ => self.write_scalar(out),
        }
    }
}

impl values::Table {
    /// Appends the encoding of this table to `out`, and returns its length.
    pub(crate) fn write_to(&self, out: &mut Vec<u8>) -> (n: usize)
        requires
            encode(model_of(Value::Table(*self))).len() <= usize::MAX,
        ensures
            final(out)@ == old(out)@ + encode(model_of(Value::Table(*self))),
            n == encode(model_of(Value::Table(*self))).len(),
        decreases self,
    {
        proof {
            crate::lemma_deque_entries_model(self.entries);
            assert(model_of(Value::Table(*self)) == (ValueModel::Table { hash: self.hash, entries: entries_model(self.entries@) }));
        }
        let ghost es = entries_model(self.entries@);
        let ghost total = encode(model_of(Value::Table(*self)));
        let ghost start = out@;
        proof {
            lemma_compact_len(self.hash, 0);
            lemma_compact_len(self.entries@.len() as u64, 0);
            lemma_entries_prefix_len(es, 0);
            assert(es.take(0) =~= Seq::<(u64, ValueModel)>::empty());
        }
        out.push(0xb5);
        let mut written: usize = 1;
        written = written + self.hash.put().write_scalar(out);
        let len = self.entries.len() as u64;
        written = written + len.put().write_scalar(out);
        let ghost head = seq![0xb5u8] + encode_uint(self.hash) + encode_uint(len);
        assert(out@ =~= start + head + encode_entries(es.take(0)));
        let mut i: usize = 0;
        while i < self.entries.len()
            invariant
                i <= self.entries.len(),
                es == entries_model(self.entries@),
                len == self.entries@.len(),
                head == seq![0xb5u8] + encode_uint(self.hash) + encode_uint(len),
                total == head + encode_entries(es),
                total.len() <= usize::MAX,
                out@ == start + head + encode_entries(es.take(i as int)),
                written == head.len() + encode_entries(es.take(i as int)).len(),
            decreases self.entries.len() - i,
        {
            proof {
                lemma_entries_step(es, i as int);
                lemma_entries_prefix_len(es, i + 1);
            }
            let k = self.entries[i].write(out);
            written = written + k;
            i = i + 1;
            assert(out@ =~= start + head + encode_entries(es.take(i as int)));
        }
        assert(es.take(i as int) =~= es);
        written
    }
}

impl values::Entry {
    /// Appends the encoding of this entry to `out`, and returns its length.
    pub(crate) fn write(&self, out: &mut Vec<u8>) -> (n: usize)
        requires
            encode_entry_of((self.id, model_of(self.val))).len() <= usize::MAX,
        ensures
            final(out)@ == old(out)@ + encode_entry_of((self.id, model_of(self.val))),
            n == encode_entry_of((self.id, model_of(self.val))).len(),
        decreases self,
    {
        let ghost start = out@;
        proof {
            lemma_compact_len(self.id, 0);
            lemma_compact_len(encode(model_of(self.val)).len() as u64, 0);
        }
        let mut written = self.id.put().write_scalar(out);
        let len = self.val.expected_size();
        written = written + len.put().write_scalar(out);
        written = written + self.val.write_to(out);
        assert(out@ =~= start + encode_entry_of((self.id, model_of(self.val))));
        written
    }
}

impl values::Error {
    /// Appends the encoding of this error to `out`, and returns its length.
    pub(crate) fn write_to(&self, out: &mut Vec<u8>) -> (n: usize)
        ensures
            final(out)@ == old(out)@ + encode(model_of(Value::Error(*self))),
            n == encode(model_of(Value::Error(*self))).len(),
    {
        let ghost start = out@;
        proof {
            lemma_compact_len(0, self.inner);
        }
        out.push(0xb6);
        let written = 1 + self.inner.put().write_scalar(out);
        assert(out@ =~= start + encode(model_of(Value::Error(*self))));
        written
    }
}

impl values::Handle {
    /// Appends the encoding of this handle to `out`, and returns its length.
    pub(crate) fn write_to(&self, out: &mut Vec<u8>) -> (n: usize)
        requires
            encode(model_of(Value::Handle(*self))).len() <= usize::MAX,
        ensures
            final(out)@ == old(out)@ + encode(model_of(Value::Handle(*self))),
            n == encode(model_of(Value::Handle(*self))).len(),
        decreases self,
    {
        let ghost start = out@;
        proof {
            lemma_compact_len(0, self.ref_num);
        }
        out.push(0xb7);
        let mut written: usize = 1;
        written = written + self.value.write_to(out);
        written = written + self.ref_num.put().write_scalar(out);
        assert(out@ =~= start + encode(model_of(Value::Handle(*self))));
        written
    }
}

impl values::Variant {
    /// Appends the encoding of this variant to `out`, and returns its length.
    pub(crate) fn write_to(&self, out: &mut Vec<u8>) -> (n: usize)
        requires
            encode(model_of(Value::Variant(*self))).len() <= usize::MAX,
        ensures
            final(out)@ == old(out)@ + encode(model_of(Value::Variant(*self))),
            n == encode(model_of(Value::Variant(*self))).len(),
        decreases self,
    {
        let ghost start = out@;
        out.push(0xb8);
        let mut written: usize = 1;
        match &self.inner {
            Some((index, value)) => {
                proof {
                    lemma_compact_len(0, *index);
                }
                written = written + index.put().write_scalar(out);
                written = written + value.write_to(out);
            },
            None => {
                proof {
                    lemma_compact_len(0, -1i64);
                }
                written = written + (-1i64).put().write_scalar(out);
                written = written + Value::Nil.write_scalar(out);
            },
        }
        assert(out@ =~= start + encode(model_of(Value::Variant(*self))));
        written
    }
}

/// Appends a count of the values, then their encodings, to `out`, and returns the
/// number of bytes appended.
pub fn write_values(values: &VecDeque<Value>, out: &mut Vec<u8>) -> (n: usize)
    requires
        (encode_uint(values@.len() as u64) + encode_values(values_model(values@))).len()
            <= usize::MAX,
    ensures
        final(out)@ == old(out)@ + encode_uint(values@.len() as u64) + encode_values(
            values_model(values@),
        ),
        n == (encode_uint(values@.len() as u64) + encode_values(values_model(values@))).len(),
    decreases values,
{
    let ghost vs = values_model(values@);
    let ghost start = out@;
    proof {
        lemma_compact_len(values@.len() as u64, 0);
        lemma_values_prefix_len(vs, 0);
        assert(vs.take(0) =~= Seq::<ValueModel>::empty());
    }
    let len = values.len() as u64;
    let mut written = len.put().write_scalar(out);
    let ghost head = encode_uint(len);
    assert(out@ =~= start + head + encode_values(vs.take(0)));
    let mut i: usize = 0;
    while i < values.len()
        invariant
            i <= values.len(),
            vs == values_model(values@),
            head == encode_uint(len),
            len == values@.len(),
            (head + encode_values(vs)).len() <= usize::MAX,
            out@ == start + head + encode_values(vs.take(i as int)),
            written == head.len() + encode_values(vs.take(i as int)).len(),
        decreases values.len() - i,
    {
        proof {
            lemma_values_step(vs, i as int);
            lemma_values_prefix_len(vs, i + 1);
        }
        let k = values[i].write_to(out);
        written = written + k;
        i = i + 1;
        assert(out@ =~= start + head + encode_values(vs.take(i as int)));
    }
    assert(vs.take(i as int) =~= vs);
    written
}

impl values::Structure {
    /// Appends the encoding of this structure to `out`, and returns its length.
    pub(crate) fn write_to(&self, out: &mut Vec<u8>) -> (n: usize)
        requires
            encode(model_of(Value::Structure(*self))).len() <= usize::MAX,
        ensures
            final(out)@ == old(out)@ + encode(model_of(Value::Structure(*self))),
            n == encode(model_of(Value::Structure(*self))).len(),
        decreases self,
    {
        proof {
            crate::lemma_deque_values_model(self.values);
            assert(model_of(Value::Structure(*self)) == ValueModel::Structure(values_model(self.values@)));
        }
        let ghost start = out@;
        out.push(0xb9);
        let written = 1 + write_values(&self.values, out);
        assert(out@ =~= start + encode(model_of(Value::Structure(*self))));
        written
    }
}

impl values::Array {
    /// Appends the encoding of this array to `out`, and returns its length.
    pub(crate) fn write_to(&self, out: &mut Vec<u8>) -> (n: usize)
        requires
            encode(model_of(Value::Array(*self))).len() <= usize::MAX,
        ensures
            final(out)@ == old(out)@ + encode(model_of(Value::Array(*self))),
            n == encode(model_of(Value::Array(*self))).len(),
        decreases self,
    {
        proof {
            crate::lemma_deque_values_model(self.values);
            assert(model_of(Value::Array(*self)) == ValueModel::Array(values_model(self.values@)));
        }
        let ghost start = out@;
        out.push(0xba);
        let written = 1 + write_values(&self.values, out);
        assert(out@ =~= start + encode(model_of(Value::Array(*self))));
        written
    }
}

impl values::Mapping {
    /// Appends the encoding of this mapping to `out`, and returns its length.
    pub(crate) fn write_to(&self, out: &mut Vec<u8>) -> (n: usize)
        requires
            encode(model_of(Value::Mapping(*self))).len() <= usize::MAX,
        ensures
            final(out)@ == old(out)@ + encode(model_of(Value::Mapping(*self))),
            n == encode(model_of(Value::Mapping(*self))).len(),
        decreases self,
    {
        proof {
            crate::lemma_deque_pairs_model(self.entries);
            assert(model_of(Value::Mapping(*self)) == ValueModel::Mapping(pairs_model(self.entries@)));
        }
        let ghost ps = pairs_model(self.entries@);
        let ghost total = encode(model_of(Value::Mapping(*self)));
        let ghost start = out@;
        proof {
            lemma_compact_len(self.entries@.len() as u64, 0);
            lemma_pairs_prefix_len(ps, 0);
            assert(ps.take(0) =~= Seq::<(ValueModel, ValueModel)>::empty());
        }
        out.push(0xbb);
        let len = self.entries.len() as u64;
        let mut written: usize = 1 + len.put().write_scalar(out);
        let ghost head = seq![0xbbu8] + encode_uint(len);
        assert(out@ =~= start + head + encode_pairs(ps.take(0)));
        let mut i: usize = 0;
        while i < self.entries.len()
            invariant
                i <= self.entries.len(),
                ps == pairs_model(self.entries@),
                len == self.entries@.len(),
                head == seq![0xbbu8] + encode_uint(len),
                total == head + encode_pairs(ps),
                total.len() <= usize::MAX,
                out@ == start + head + encode_pairs(ps.take(i as int)),
                written == head.len() + encode_pairs(ps.take(i as int)).len(),
            decreases self.entries.len() - i,
        {
            proof {
                lemma_pairs_step(ps, i as int);
                lemma_pairs_prefix_len(ps, i + 1);
            }
            let (k, v) = &self.entries[i];
            written = written + k.write_to(out);
            written = written + v.write_to(out);
            i = i + 1;
            assert(out@ =~= start + head + encode_pairs(ps.take(i as int)));
        }
        assert(ps.take(i as int) =~= ps);
        written
    }
}

/// Appends the length of `bytes`, then `bytes`, to `out`, and returns the number
/// of bytes appended.
pub fn write_bytes(bytes: &[u8], out: &mut Vec<u8>) -> (n: usize)
    requires
        encode_blob(bytes@).len() <= usize::MAX,
    ensures
        final(out)@ == old(out)@ + encode_blob(bytes@),
        n == encode_blob(bytes@).len(),
{
    let ghost start = out@;
    proof {
        lemma_compact_len(bytes@.len() as u64, 0);
    }
    let len = bytes.len() as u64;
    let mut written = len.put().write_scalar(out);
    let mut copy = vstd::slice::slice_to_vec(bytes);
    out.append(&mut copy);
    written = written + bytes.len();
    assert(out@ =~= start + encode_blob(bytes@));
    written
}

impl values::Bytes {
    /// Appends the encoding of this byte string to `out`, and returns its length.
    pub(crate) fn write_to(&self, out: &mut Vec<u8>) -> (n: usize)
        requires
            encode(model_of(Value::Bytes(*self))).len() <= usize::MAX,
        ensures
            final(out)@ == old(out)@ + encode(model_of(Value::Bytes(*self))),
            n == encode(model_of(Value::Bytes(*self))).len(),
    {
        let ghost start = out@;
        out.push(0xbc);
        let written = 1 + write_bytes(self.inner.as_slice(), out);
        assert(out@ =~= start + encode(model_of(Value::Bytes(*self))));
        written
    }
}

impl values::String {
    /// Appends the encoding of this string to `out`, and returns its length.
    pub(crate) fn write_to(&self, out: &mut Vec<u8>) -> (n: usize)
        requires
            encode(model_of(Value::String(*self))).len() <= usize::MAX,
        ensures
            final(out)@ == old(out)@ + encode(model_of(Value::String(*self))),
            n == encode(model_of(Value::String(*self))).len(),
    {
        let ghost start = out@;
        out.push(0xbd);
        let written = 1 + write_bytes(self.inner.as_slice(), out);
        assert(out@ =~= start + encode(model_of(Value::String(*self))));
        written
    }
}

// ---------------------------------------------------------------------------
// Sizes
// ---------------------------------------------------------------------------
/// The length of `s` as a `u64`, or none where it does not fit.
pub open spec fn checked_len(s: Seq<u8>) -> Option<u64> {
    if s.len() <= u64::MAX {
        Some(s.len() as u64)
    } else {
        None
    }
}

impl Value {
    /// The length of the encoding of the scalar `self`.
    pub(crate) fn scalar_size(&self) -> (n: u64)
        requires
            is_scalar(self@),
        ensures
            n == encode_scalar(self@).len(),
    {
        proof {
            lemma_le_lengths();
        }
        match self {
            Value::U8(_) | Value::I8(_) => 2,
            Value::U16(_) | Value::I16(_) => 3,
            Value::U32(_) | Value::I32(_) | Value::F32(_) => 5,
            Value::U64(_) | Value::I64(_) | Value::F64(_) => 9,
            _ => 1,
        }
    }

    /// The number of bytes that `write` produces for `self`, or none where that
    /// number does not fit a `u64`.
    pub fn checked_size(&self) -> (r: Option<u64>)
        ensures
            r == checked_len(encode(self@)),
        decreases self,
    {
        match self {
            Value::Table(t) => t.checked_size(),
            Value::Error(e) => Some(e.expected_size()),
            Value::Handle(h) => h.checked_size(),
            Value::Variant(v) => v.checked_size(),
            Value::Structure(s) => s.checked_size(),
            Value::Array(a) => a.checked_size(),
            Value::Mapping(m) => m.checked_size(),
            Value::Bytes(b) => b.checked_size(),
            Value::String(s) => s.checked_size(),
            _ => Some(self.scalar_size()),
        }
    }

    /// The number of bytes that `write` produces for `self`.
    pub fn expected_size(&self) -> (n: u64)
        requires
            encode(self@).len() <= u64::MAX,
        ensures
            n == encode(self@).len(),
    {
        match self.checked_size() {
            Some(n) => n,
            None => 0,
        }
    }
}

impl values::Table {
    /// The length of the encoding of this table, if it fits a `u64`.
    pub(crate) fn checked_size(&self) -> (r: Option<u64>)
        ensures
            r == checked_len(encode(model_of(Value::Table(*self)))),
        decreases self,
    {
        proof {
            crate::lemma_deque_entries_model(self.entries);
            assert(model_of(Value::Table(*self)) == (ValueModel::Table { hash: self.hash, entries: entries_model(self.entries@) }));
        }
        let ghost es = entries_model(self.entries@);
        let ghost total = encode(model_of(Value::Table(*self)));
        proof {
            lemma_compact_len(self.hash, 0);
            lemma_compact_len(self.entries@.len() as u64, 0);
            assert(es.take(0) =~= Seq::<(u64, ValueModel)>::empty());
        }
        let len = self.entries.len() as u64;
        let ghost head = seq![0xb5u8] + encode_uint(self.hash) + encode_uint(len);
        let mut size: u64 = 1 + self.hash.put().scalar_size() + len.put().scalar_size();
        let mut i: usize = 0;
        while i < self.entries.len()
            invariant
                i <= self.entries.len(),
                es == entries_model(self.entries@),
                len == self.entries@.len(),
                head == seq![0xb5u8] + encode_uint(self.hash) + encode_uint(len),
                total == head + encode_entries(es),
                model_of(Value::Table(*self)) == (ValueModel::Table { hash: self.hash, entries: es }),
                size == head.len() + encode_entries(es.take(i as int)).len(),
            decreases self.entries.len() - i,
        {
            proof {
                lemma_entries_step(es, i as int);
                lemma_entries_prefix_len(es, i + 1);
            }
            let entry = &self.entries[i];
            let k = match entry.checked_size() {
                Some(k) => k,
                None => {
                    return None;
                },
            };
            size = match size.checked_add(k) {
                Some(n) => n,
                None => {
                    return None;
                },
            };
            i = i + 1;
        }
        assert(es.take(i as int) =~= es);
        Some(size)
    }
}

impl values::Entry {
    /// The length of the encoding of this entry, if it fits a `u64`.
    pub(crate) fn checked_size(&self) -> (r: Option<u64>)
        ensures
            r == checked_len(encode_entry_of((self.id, model_of(self.val)))),
        decreases self,
    {
        proof {
            lemma_compact_len(self.id, 0);
        }
        let val_len = match self.val.checked_size() {
            Some(n) => n,
            None => {
                return None;
            },
        };
        proof {
            lemma_compact_len(val_len, 0);
        }
        let head = self.id.put().scalar_size() + val_len.put().scalar_size();
        head.checked_add(val_len)
    }
}

impl values::Error {
    /// The length of the encoding of this error.
    pub(crate) fn expected_size(&self) -> (n: u64)
        ensures
            n == encode(model_of(Value::Error(*self))).len(),
    {
        proof {
            lemma_compact_len(0, self.inner);
        }
        1 + self.inner.put().scalar_size()
    }
}

impl values::Handle {
    /// The length of the encoding of this handle, if it fits a `u64`.
    pub(crate) fn checked_size(&self) -> (r: Option<u64>)
        ensures
            r == checked_len(encode(model_of(Value::Handle(*self)))),
        decreases self,
    {
        proof {
            lemma_compact_len(0, self.ref_num);
        }
        let inner = match self.value.checked_size() {
            Some(n) => n,
            None => {
                return None;
            },
        };
        inner.checked_add(1 + self.ref_num.put().scalar_size())
    }
}

impl values::Variant {
    /// The length of the encoding of this variant, if it fits a `u64`.
    pub(crate) fn checked_size(&self) -> (r: Option<u64>)
        ensures
            r == checked_len(encode(model_of(Value::Variant(*self)))),
        decreases self,
    {
        match &self.inner {
            Some((index, value)) => {
                proof {
                    lemma_compact_len(0, *index);
                }
                let inner = match value.checked_size() {
                    Some(n) => n,
                    None => {
                        return None;
                    },
                };
                inner.checked_add(1 + index.put().scalar_size())
            },
            None => {
                proof {
                    lemma_compact_len(0, -1i64);
                }
                Some(1 + (-1i64).put().scalar_size() + Value::Nil.scalar_size())
            },
        }
    }
}

/// The length of a count of the values followed by their encodings, if it fits a `u64`.
fn values_checked_size(values: &VecDeque<Value>) -> (r: Option<u64>)
    ensures
        r == checked_len(encode_uint(values@.len() as u64) + encode_values(values_model(values@))),
    decreases values,
{
    let ghost vs = values_model(values@);
    let ghost total = encode_uint(values@.len() as u64) + encode_values(vs);
    proof {
        lemma_compact_len(values@.len() as u64, 0);
        assert(vs.take(0) =~= Seq::<ValueModel>::empty());
    }
    let len = values.len() as u64;
    let ghost head = encode_uint(len);
    let mut size = len.put().scalar_size();
    let mut i: usize = 0;
    while i < values.len()
        invariant
            i <= values.len(),
            vs == values_model(values@),
            head == encode_uint(len),
            len == values@.len(),
            total == head + encode_values(vs),
            size == head.len() + encode_values(vs.take(i as int)).len(),
        decreases values.len() - i,
    {
        proof {
            lemma_values_step(vs, i as int);
            lemma_values_prefix_len(vs, i + 1);
        }
        let k = match values[i].checked_size() {
            Some(k) => k,
            None => {
                return None;
            },
        };
        size = match size.checked_add(k) {
            Some(n) => n,
            None => {
                return None;
            },
        };
        i = i + 1;
    }
    assert(vs.take(i as int) =~= vs);
    Some(size)
}

/// The number of bytes that `write_values` appends for `values`.
pub fn values_expected_size(values: &VecDeque<Value>) -> (n: u64)
    requires
        (encode_uint(values@.len() as u64) + encode_values(values_model(values@))).len()
            <= u64::MAX,
    ensures
        n == (encode_uint(values@.len() as u64) + encode_values(values_model(values@))).len(),
{
    match values_checked_size(values) {
        Some(n) => n,
        None => 0,
    }
}

impl values::Structure {
    /// The length of the encoding of this structure, if it fits a `u64`.
    pub(crate) fn checked_size(&self) -> (r: Option<u64>)
        ensures
            r == checked_len(encode(model_of(Value::Structure(*self)))),
        decreases self,
    {
        proof {
            crate::lemma_deque_values_model(self.values);
            assert(model_of(Value::Structure(*self)) == ValueModel::Structure(values_model(self.values@)));
        }
        let n = match values_checked_size(&self.values) {
            Some(n) => n,
            None => {
                return None;
            },
        };
        n.checked_add(1)
    }
}

impl values::Array {
    /// The length of the encoding of this array, if it fits a `u64`.
    pub(crate) fn checked_size(&self) -> (r: Option<u64>)
        ensures
            r == checked_len(encode(model_of(Value::Array(*self)))),
        decreases self,
    {
        proof {
            crate::lemma_deque_values_model(self.values);
            assert(model_of(Value::Array(*self)) == ValueModel::Array(values_model(self.values@)));
        }
        let n = match values_checked_size(&self.values) {
            Some(n) => n,
            None => {
                return None;
            },
        };
        n.checked_add(1)
    }
}

impl values::Mapping {
    /// The length of the encoding of this mapping, if it fits a `u64`.
    pub(crate) fn checked_size(&self) -> (r: Option<u64>)
        ensures
            r == checked_len(encode(model_of(Value::Mapping(*self)))),
        decreases self,
    {
        proof {
            crate::lemma_deque_pairs_model(self.entries);
            assert(model_of(Value::Mapping(*self)) == ValueModel::Mapping(pairs_model(self.entries@)));
        }
        let ghost ps = pairs_model(self.entries@);
        let ghost total = encode(model_of(Value::Mapping(*self)));
        proof {
            lemma_compact_len(self.entries@.len() as u64, 0);
            assert(ps.take(0) =~= Seq::<(ValueModel, ValueModel)>::empty());
        }
        let len = self.entries.len() as u64;
        let ghost head = seq![0xbbu8] + encode_uint(len);
        let mut size: u64 = 1 + len.put().scalar_size();
        let mut i: usize = 0;
        while i < self.entries.len()
            invariant
                i <= self.entries.len(),
                ps == pairs_model(self.entries@),
                len == self.entries@.len(),
                head == seq![0xbbu8] + encode_uint(len),
                total == head + encode_pairs(ps),
                model_of(Value::Mapping(*self)) == ValueModel::Mapping(ps),
                size == head.len() + encode_pairs(ps.take(i as int)).len(),
            decreases self.entries.len() - i,
        {
            proof {
                lemma_pairs_step(ps, i as int);
                lemma_pairs_prefix_len(ps, i + 1);
            }
            let (k, v) = &self.entries[i];
            let ks = match k.checked_size() {
                Some(n) => n,
                None => {
                    return None;
                },
            };
            let vs = match v.checked_size() {
                Some(n) => n,
                None => {
                    return None;
                },
            };
            size = match size.checked_add(ks) {
                Some(n) => n,
                None => {
                    return None;
                },
            };
            size = match size.checked_add(vs) {
                Some(n) => n,
                None => {
                    return None;
                },
            };
            i = i + 1;
        }
        assert(ps.take(i as int) =~= ps);
        Some(size)
    }
}

/// The length of the encoding of a byte string, if it fits a `u64`.
fn blob_checked_size(bytes: &[u8]) -> (r: Option<u64>)
    ensures
        r == checked_len(encode_blob(bytes@)),
{
    proof {
        lemma_compact_len(bytes@.len() as u64, 0);
    }
    let len = bytes.len() as u64;
    len.checked_add(len.put().scalar_size())
}

/// The number of bytes that `write_bytes` appends for `bytes`.
pub fn bytes_expected_size(bytes: &[u8]) -> (n: u64)
    requires
        encode_blob(bytes@).len() <= u64::MAX,
    ensures
        n == encode_blob(bytes@).len(),
{
    match blob_checked_size(bytes) {
        Some(n) => n,
        None => 0,
    }
}

impl values::Bytes {
    /// The length of the encoding of this byte string, if it fits a `u64`.
    pub(crate) fn checked_size(&self) -> (r: Option<u64>)
        ensures
            r == checked_len(encode(model_of(Value::Bytes(*self)))),
    {
        let n = match blob_checked_size(self.inner.as_slice()) {
            Some(n) => n,
            None => {
                return None;
            },
        };
        n.checked_add(1)
    }
}

impl values::String {
    /// The length of the encoding of this string, if it fits a `u64`.
    pub(crate) fn checked_size(&self) -> (r: Option<u64>)
        ensures
            r == checked_len(encode(model_of(Value::String(*self)))),
    {
        let n = match blob_checked_size(self.inner.as_slice()) {
            Some(n) => n,
            None => {
                return None;
            },
        };
        n.checked_add(1)
    }
}

} // verus!
