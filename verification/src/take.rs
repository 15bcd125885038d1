//! Reading values from bytes.
use std::collections::VecDeque;

use vstd::bytes::*;
use vstd::prelude::*;
use vstd::slice::slice_subrange;

use crate::model::{
    join, prepend, read_int, read_uint, take_blob, take_entries, take_entry, take_error,
    take_handle, take_mapping, take_pairs, take_scalar, take_table, take_value,
    take_value_list, take_values, take_variant, is_scalar_tag, Outcome, ValueModel,
};
use crate::values;
use crate::{entries_model, model_of, pairs_model, values_model, Value};

verus! {

broadcast use crate::group_deque_models;

/// The input reaches what this format does not handle at all: the reserved
/// extension tag, or a length or offset that points outside the input.
#[derive(Debug, PartialEq)]
pub struct Unsupported;

/// Whether the result `r` of a reader, whose item `x` stands for the value `f(x)`,
/// is the outcome `o` of the parse relation.
pub open spec fn reads_as<T>(
    o: Outcome<ValueModel>,
    r: Result<Option<(usize, T)>, Unsupported>,
    f: spec_fn(T) -> Value,
) -> bool {
    match o {
        Outcome::Done(n, m) => r matches Ok(Some((k, x))) && k == n && f(x)@ == m,
        Outcome::Fail => r matches Ok(None),
        Outcome::Abort => r is Err,
    }
}

/// Whether the result of an integer reader is the outcome `o` of the parse relation.
pub open spec fn int_agrees<T>(o: Outcome<T>, r: Option<(usize, T)>) -> bool {
    match o {
        Outcome::Done(n, x) => r == Some((n as usize, x)),
        Outcome::Fail => r is None,
        Outcome::Abort => true,
    }
}

/// `join` of nothing is the outcome itself.
proof fn lemma_join_nothing<T>(o: Outcome<Seq<T>>)
    ensures
        join(0, Seq::<T>::empty(), o) == o,
{
    match o {
        Outcome::Done(m, xs) => {
            assert(Seq::<T>::empty() + xs =~= xs);
        },
        _ => {},
    }
}

/// `join` onto the end of a list.
proof fn lemma_join_end<T>(c: nat, pre: Seq<T>)
    ensures
        join(c, pre, Outcome::Done(0, Seq::<T>::empty())) == Outcome::Done(c, pre),
{
    assert(pre + Seq::<T>::empty() =~= pre);
}

/// Moving one item from the rest of a loop into the items already read.
proof fn lemma_join_prepend<T>(c: nat, pre: Seq<T>, l: nat, x: T, o: Outcome<Seq<T>>)
    ensures
        join(c, pre, prepend(l, x, o)) == join(c + l, pre.push(x), o),
{
    match o {
        Outcome::Done(m, xs) => {
            assert(pre + (seq![x] + xs) =~= pre.push(x) + xs);
        },
        _ => {},
    }
}

/// Reads an unsigned integer that starts at `bytes[1]`: a fixint, or a tag
/// `0x80..=0x83` and a little-endian payload. Returns the number of bytes it
/// used after `bytes[0]`.
pub fn uint64(bytes: &[u8]) -> (r: Option<(usize, u64)>)
    requires
        bytes@.len() >= 1,
    ensures
        int_agrees(read_uint(bytes@), r),
        r matches Some((k, _)) ==> 1 <= k && k + 1 <= bytes@.len(),
{
    let s = slice_subrange(bytes, 1, bytes.len());
    if s.len() == 0 {
        return None;
    }
    let t = s[0];
    if t <= 0x7f {
        Some((1, t as u64))
    } else if t == 0x80 {
        if s.len() >= 2 {
            Some((2, s[1] as u64))
        } else {
            None
        }
    } else if t == 0x81 {
        if s.len() >= 3 {
            let p = slice_subrange(s, 1, 3);
            assert(p@ =~= bytes@.subrange(2, 4));
            Some((3, u16_from_le_bytes(p) as u64))
        } else {
            None
        }
    } else if t == 0x82 {
        if s.len() >= 5 {
            let p = slice_subrange(s, 1, 5);
            assert(p@ =~= bytes@.subrange(2, 6));
            Some((5, u32_from_le_bytes(p) as u64))
        } else {
            None
        }
    } else if t == 0x83 {
        if s.len() >= 9 {
            let p = slice_subrange(s, 1, 9);
            assert(p@ =~= bytes@.subrange(2, 10));
            Some((9, u64_from_le_bytes(p)))
        } else {
            None
        }
    } else {
        None
    }
}

/// Reads a signed integer that starts at `bytes[1]`: a fixint, or a tag
/// `0x84..=0x87` and a little-endian payload. Returns the number of bytes it
/// used after `bytes[0]`.
pub fn int64(bytes: &[u8]) -> (r: Option<(usize, i64)>)
    requires
        bytes@.len() >= 1,
    ensures
        int_agrees(read_int(bytes@), r),
        r matches Some((k, _)) ==> 1 <= k && k + 1 <= bytes@.len(),
{
    let s = slice_subrange(bytes, 1, bytes.len());
    if s.len() == 0 {
        return None;
    }
    let t = s[0];
    if t <= 0x7f || t >= 0xc0 {
        Some((1, (t as i8) as i64))
    } else if t == 0x84 {
        if s.len() >= 2 {
            Some((2, (s[1] as i8) as i64))
        } else {
            None
        }
    } else if t == 0x85 {
        if s.len() >= 3 {
            let p = slice_subrange(s, 1, 3);
            assert(p@ =~= bytes@.subrange(2, 4));
            Some((3, (u16_from_le_bytes(p) as i16) as i64))
        } else {
            None
        }
    } else if t == 0x86 {
        if s.len() >= 5 {
            let p = slice_subrange(s, 1, 5);
            assert(p@ =~= bytes@.subrange(2, 6));
            Some((5, (u32_from_le_bytes(p) as i32) as i64))
        } else {
            None
        }
    } else if t == 0x87 {
        if s.len() >= 9 {
            let p = slice_subrange(s, 1, 9);
            assert(p@ =~= bytes@.subrange(2, 10));
            Some((9, u64_from_le_bytes(p) as i64))
        } else {
            None
        }
    } else {
        None
    }
}

/// Reads a length-prefixed byte string whose length starts at `bytes[1]`.
/// Returns the number of bytes it used after `bytes[0]`, and a copy of the string.
pub fn bytes(input: &[u8]) -> (r: Option<(usize, Vec<u8>)>)
    requires
        input@.len() >= 1,
    ensures
        match take_blob(input@) {
            Outcome::Done(n, b) => r matches Some((k, v)) && k == n && v@ == b,
            Outcome::Fail => r is None,
            Outcome::Abort => true,
        },
        r matches Some((k, _)) ==> k + 1 <= input@.len(),
{
    let (size, len) = uint64(input)?;
    let avail = input.len() - 1 - size;
    if len > avail as u64 {
        return None;
    }
    let total_len = size + len as usize;
    let inner = slice_subrange(input, size + 1, total_len + 1);
    Some((total_len, vstd::slice::slice_to_vec(inner)))
}

/// Reads a scalar whose tag `bytes[0]` is a fixint byte or one of `0x80..=0x89`.
fn take_scalar_from(bytes: &[u8]) -> (r: Option<(usize, Value)>)
    requires
        bytes@.len() >= 1,
        is_scalar_tag(bytes@[0]),
    ensures
        reads_as(take_scalar(bytes@), Ok::<Option<(usize, Value)>, Unsupported>(r), |x: Value| x),
        r matches Some((k, _)) ==> k <= bytes@.len(),
{
    let t = bytes[0];
    if t <= 0x7f || t >= 0xc0 {
        Some((1, Value::FixInt(t as i8)))
    } else if t == 0x80 || t == 0x84 {
        if bytes.len() >= 2 {
            let b = bytes[1];
            Some((2, if t == 0x80 { Value::U8(b) } else { Value::I8(b as i8) }))
        } else {
            None
        }
    } else if t == 0x81 || t == 0x85 {
        if bytes.len() >= 3 {
            let x = u16_from_le_bytes(slice_subrange(bytes, 1, 3));
            Some((3, if t == 0x81 { Value::U16(x) } else { Value::I16(x as i16) }))
        } else {
            None
        }
    } else if t == 0x82 || t == 0x86 || t == 0x88 {
        if bytes.len() >= 5 {
            let x = u32_from_le_bytes(slice_subrange(bytes, 1, 5));
            Some(
                (
                    5,
                    if t == 0x82 {
                        Value::U32(x)
                    } else if t == 0x86 {
                        Value::I32(x as i32)
                    } else {
                        Value::F32(x)
                    },
                ),
            )
        } else {
            None
        }
    } else if t == 0x83 || t == 0x87 || t == 0x89 {
        if bytes.len() >= 9 {
            let x = u64_from_le_bytes(slice_subrange(bytes, 1, 9));
            Some(
                (
                    9,
                    if t == 0x83 {
                        Value::U64(x)
                    } else if t == 0x87 {
                        Value::I64(x as i64)
                    } else {
                        Value::F64(x)
                    },
                ),
            )
        } else {
            None
        }
    } else {
        None
    }
}

impl Value {
    /// Reads one value whose tag is `bytes[0]`: the number of bytes the reader
    /// reports as used and the value, no value, or `Unsupported`.
    pub fn take_from_raw(bytes: &[u8]) -> (r: Result<Option<(usize, Value)>, Unsupported>)
        requires
            bytes@.len() < usize::MAX,
        ensures
            reads_as(take_value(bytes@), r, |x: Value| x),
            r matches Ok(Some((k, _))) ==> 1 <= k <= bytes@.len() + 1,
        decreases bytes@.len(), 2nat,
    {
        if bytes.len() == 0 {
            return Ok(None);
        }
        let t = bytes[0];
        if t <= 0x89 || t >= 0xc0 {
            Ok(take_scalar_from(bytes))
        } else if t == 0xb5 {
            match values::Table::take_from_raw(bytes)? {
                Some((n, x)) => Ok(Some((n + 1, Value::Table(x)))),
                None => Ok(None),
            }
        } else if t == 0xb6 {
            match values::Error::take_from_raw(bytes)? {
                Some((n, x)) => Ok(Some((n + 1, Value::Error(x)))),
                None => Ok(None),
            }
        } else if t == 0xb7 {
            match values::Handle::take_from_raw(bytes)? {
                Some((n, x)) => Ok(Some((n + 1, Value::Handle(x)))),
                None => Ok(None),
            }
        } else if t == 0xb8 {
            match values::Variant::take_from_raw(bytes)? {
                Some((n, x)) => Ok(Some((n + 1, Value::Variant(x)))),
                None => Ok(None),
            }
        } else if t == 0xb9 {
            match values::Structure::take_from_raw(bytes)? {
                Some((n, x)) => Ok(Some((n + 1, Value::Structure(x)))),
                None => Ok(None),
            }
        } else if t == 0xba {
            match values::Array::take_from_raw(bytes)? {
                Some((n, x)) => Ok(Some((n + 1, Value::Array(x)))),
                None => Ok(None),
            }
        } else if t == 0xbb {
            match values::Mapping::take_from_raw(bytes)? {
                Some((n, x)) => Ok(Some((n + 1, Value::Mapping(x)))),
                None => Ok(None),
            }
        } else if t == 0xbc {
            match values::Bytes::take_from_raw(bytes) {
                Some((n, x)) => Ok(Some((n + 1, Value::Bytes(x)))),
                None => Ok(None),
            }
        } else if t == 0xbd {
            match values::String::take_from_raw(bytes) {
                Some((n, x)) => Ok(Some((n + 1, Value::String(x)))),
                None => Ok(None),
            }
        } else if t == 0xbe {
            Ok(Some((1, Value::Nil)))
        } else if t == 0xbf {
            Err(Unsupported)
        } else {
            Ok(None)
        }
    }
}

/// Reads a count that starts at `bytes[1]`, then that many values, the first of
/// which starts right after the count.
pub fn values(bytes: &[u8]) -> (r: Result<Option<(usize, Vec<Value>)>, Unsupported>)
    requires
        bytes@.len() >= 1,
        bytes@.len() < usize::MAX,
    ensures
        match take_values(bytes@) {
            Outcome::Done(n, ms) => r matches Ok(Some((k, vs))) && k == n && values_model(vs@)
                == ms,
            Outcome::Fail => r matches Ok(None),
            Outcome::Abort => r is Err,
        },
        r matches Ok(Some((k, _))) ==> k + 1 <= bytes@.len(),
    decreases bytes@.len(), 0nat,
{
    let (size, len) = match uint64(bytes) {
        Some(x) => x,
        None => {
            return Ok(None);
        },
    };
    let ghost r0 = bytes@.subrange(size + 1, bytes@.len() as int);
    let mut rest = slice_subrange(bytes, size + 1, bytes.len());
    let mut values: Vec<Value> = Vec::new();
    let mut total_size: usize = size;
    let mut i: u64 = 0;
    proof {
        lemma_join_nothing(take_value_list(r0, len as nat));
        assert(values_model(values@) =~= Seq::<ValueModel>::empty());
    }
    while i < len
        invariant
            bytes@.len() < usize::MAX,
            r0 == bytes@.subrange(size + 1, bytes@.len() as int),
            size + 1 <= bytes@.len(),
            size <= total_size,
            total_size - size <= r0.len(),
            rest@ == r0.subrange(total_size - size, r0.len() as int),
            i <= len,
            take_values(bytes@) == match take_value_list(r0, len as nat) {
                Outcome::Done(m, vs) => Outcome::Done((size + m) as nat, vs),
                Outcome::Fail => Outcome::Fail,
                Outcome::Abort => Outcome::Abort,
            },
            take_value_list(r0, len as nat) == join(
                (total_size - size) as nat,
                values_model(values@),
                take_value_list(rest@, (len - i) as nat),
            ),
        decreases len - i,
    {
        let ghost before = values_model(values@);
        let ghost k = (len - i) as nat;
        let (l, v) = match Value::take_from_raw(rest)? {
            Some(x) => x,
            None => {
                return Ok(None);
            },
        };
        if l > rest.len() {
            return Err(Unsupported);
        }
        proof {
            lemma_join_prepend(
                (total_size - size) as nat,
                before,
                l as nat,
                v@,
                take_value_list(rest@.subrange(l as int, rest@.len() as int), (k - 1) as nat),
            );
        }
        values.push(v);
        assert(values_model(values@) =~= before.push(v@));
        let ghost old_rest = rest@;
        rest = slice_subrange(rest, l, rest.len());
        total_size = total_size + l;
        i = i + 1;
        assert(rest@ =~= r0.subrange(total_size - size, r0.len() as int));
    }
    proof {
        lemma_join_end((total_size - size) as nat, values_model(values@));
    }
    Ok(Some((total_size, values)))
}

impl values::Structure {
    /// Reads the values of a structure whose tag is `bytes[0]`.
    pub(crate) fn take_from_raw(bytes: &[u8]) -> (r: Result<Option<(usize, values::Structure)>, Unsupported>)
        requires
            bytes@.len() >= 1,
            bytes@.len() < usize::MAX,
        ensures
            match take_values(bytes@) {
                Outcome::Done(n, ms) => r matches Ok(Some((k, x))) && k == n && model_of(
                    Value::Structure(x),
                ) == ValueModel::Structure(ms),
                Outcome::Fail => r matches Ok(None),
                Outcome::Abort => r is Err,
            },
            r matches Ok(Some((k, _))) ==> k <= bytes@.len(),
        decreases bytes@.len(), 1nat,
    {
        match values(bytes)? {
            Some((size, values)) => {
                let x = values::Structure { values: values::deque_of(values) };
                proof {
                    crate::lemma_deque_values_model(x.values);
                }
                Ok(Some((size, x)))
            },
            None => Ok(None),
        }
    }
}

impl values::Array {
    /// Reads the values of a array whose tag is `bytes[0]`.
    pub(crate) fn take_from_raw(bytes: &[u8]) -> (r: Result<Option<(usize, values::Array)>, Unsupported>)
        requires
            bytes@.len() >= 1,
            bytes@.len() < usize::MAX,
        ensures
            match take_values(bytes@) {
                Outcome::Done(n, ms) => r matches Ok(Some((k, x))) && k == n && model_of(
                    Value::Array(x),
                ) == ValueModel::Array(ms),
                Outcome::Fail => r matches Ok(None),
                Outcome::Abort => r is Err,
            },
            r matches Ok(Some((k, _))) ==> k <= bytes@.len(),
        decreases bytes@.len(), 1nat,
    {
        match values(bytes)? {
            Some((size, values)) => {
                let x = values::Array { values: values::deque_of(values) };
                proof {
                    crate::lemma_deque_values_model(x.values);
                }
                Ok(Some((size, x)))
            },
            None => Ok(None),
        }
    }
}

impl values::Bytes {
    /// Reads a byte string whose tag is `bytes[0]`.
    pub(crate) fn take_from_raw(bytes: &[u8]) -> (r: Option<(usize, values::Bytes)>)
        requires
            bytes@.len() >= 1,
        ensures
            match take_blob(bytes@) {
                Outcome::Done(n, b) => r matches Some((k, x)) && k == n && x.inner@ == b,
                Outcome::Fail => r is None,
                Outcome::Abort => true,
            },
            r matches Some((k, _)) ==> k <= bytes@.len(),
    {
        let (len, inner) = crate::take::bytes(bytes)?;
        Some((len, values::Bytes { inner }))
    }
}

impl values::String {
    /// Reads a string whose tag is `bytes[0]`.
    pub(crate) fn take_from_raw(bytes: &[u8]) -> (r: Option<(usize, values::String)>)
        requires
            bytes@.len() >= 1,
        ensures
            match take_blob(bytes@) {
                Outcome::Done(n, b) => r matches Some((k, x)) && k == n && x.inner@ == b,
                Outcome::Fail => r is None,
                Outcome::Abort => true,
            },
            r matches Some((k, _)) ==> k <= bytes@.len(),
    {
        let (len, inner) = crate::take::bytes(bytes)?;
        Some((len, values::String { inner }))
    }
}

impl values::Error {
    /// Reads an error whose tag is `bytes[0]`.
    pub(crate) fn take_from_raw(bytes: &[u8]) -> (r: Result<Option<(usize, values::Error)>, Unsupported>)
        ensures
            reads_as(take_error(bytes@), r, |x: values::Error| Value::Error(x)),
            r matches Ok(Some((k, _))) ==> k <= bytes@.len(),
    {
        if bytes.len() < 2 {
            return Err(Unsupported);
        }
        let e = slice_subrange(bytes, 1, bytes.len());
        match int64(e) {
            Some((size, inner)) => Ok(Some((size, values::Error { inner }))),
            None => Ok(None),
        }
    }
}

impl values::Handle {
    /// Reads a handle whose tag is `bytes[0]`.
    pub(crate) fn take_from_raw(bytes: &[u8]) -> (r: Result<Option<(usize, values::Handle)>, Unsupported>)
        requires
            bytes@.len() < usize::MAX,
        ensures
            reads_as(take_handle(bytes@), r, |x: values::Handle| Value::Handle(x)),
            r matches Ok(Some((k, _))) ==> k <= bytes@.len(),
        decreases bytes@.len(), 0nat,
    {
        if bytes.len() == 0 {
            return Err(Unsupported);
        }
        let c = slice_subrange(bytes, 1, bytes.len());
        let (size1, value) = match Value::take_from_raw(c)? {
            Some(x) => x,
            None => {
                return Ok(None);
            },
        };
        if size1 >= c.len() {
            return Err(Unsupported);
        }
        let d = slice_subrange(c, size1, c.len());
        match int64(d) {
            Some((size2, ref_num)) => Ok(
                Some((size1 + size2, values::Handle { value: Box::new(value), ref_num })),
            ),
            None => Ok(None),
        }
    }
}

impl values::Variant {
    /// Reads a variant whose tag is `bytes[0]`: its index, then its value.
    pub(crate) fn take_from_raw(bytes: &[u8]) -> (r: Result<Option<(usize, values::Variant)>, Unsupported>)
        requires
            bytes@.len() < usize::MAX,
        ensures
            reads_as(take_variant(bytes@), r, |x: values::Variant| Value::Variant(x)),
            r matches Ok(Some((k, _))) ==> k <= bytes@.len(),
        decreases bytes@.len(), 0nat,
    {
        if bytes.len() == 0 {
            return Err(Unsupported);
        }
        let (size, variant) = match int64(bytes) {
            Some(x) => x,
            None => {
                return Ok(None);
            },
        };
        let rest = slice_subrange(bytes, size + 1, bytes.len());
        let (vsize, value) = match Value::take_from_raw(rest)? {
            Some(x) => x,
            None => {
                return Ok(None);
            },
        };
        if variant < -1 {
            return Ok(None);
        }
        let inner = if variant < 0 {
            None
        } else {
            Some((variant, Box::new(value)))
        };
        Ok(Some((size + vsize, values::Variant { inner })))
    }
}

impl values::Table {
    /// Reads a table whose tag is `bytes[0]`: its hash, its entry count, then the entries.
    pub(crate) fn take_from_raw(bytes: &[u8]) -> (r: Result<Option<(usize, values::Table)>, Unsupported>)
        requires
            bytes@.len() >= 1,
            bytes@.len() < usize::MAX,
        ensures
            reads_as(take_table(bytes@), r, |x: values::Table| Value::Table(x)),
            r matches Ok(Some((k, _))) ==> k <= bytes@.len(),
        decreases bytes@.len(), 0nat,
    {
        let (size1, hash) = match uint64(bytes) {
            Some(x) => x,
            None => {
                return Ok(None);
            },
        };
        let b1 = slice_subrange(bytes, size1, bytes.len());
        let (size2, entry_count) = match uint64(b1) {
            Some(x) => x,
            None => {
                return Ok(None);
            },
        };
        let ghost r0 = b1@.subrange(size2 as int, b1@.len() as int);
        let mut rest = slice_subrange(b1, size2, b1.len());
        let mut total_size: usize = size1 + size2;
        let mut entries: VecDeque<values::Entry> = VecDeque::new();
        let mut i: u64 = 0;
        proof {
            lemma_join_nothing(take_entries(r0, entry_count as nat));
            assert(entries_model(entries@) =~= Seq::<(u64, ValueModel)>::empty());
        }
        while i < entry_count
            invariant
                bytes@.len() < usize::MAX,
                r0.len() + size1 + size2 == bytes@.len(),
                size1 >= 1,
                size1 + size2 <= total_size,
                total_size - size1 - size2 <= r0.len(),
                rest@ == r0.subrange(total_size - size1 - size2, r0.len() as int),
                i <= entry_count,
                take_table(bytes@) == match take_entries(r0, entry_count as nat) {
                    Outcome::Done(m, es) => Outcome::Done(
                        (size1 + size2 + m) as nat,
                        ValueModel::Table { hash, entries: es },
                    ),
                    Outcome::Fail => Outcome::Fail,
                    Outcome::Abort => Outcome::Abort,
                },
                take_entries(r0, entry_count as nat) == join(
                    (total_size - size1 - size2) as nat,
                    entries_model(entries@),
                    take_entries(rest@, (entry_count - i) as nat),
                ),
            decreases entry_count - i,
        {
            let ghost before = entries_model(entries@);
            let ghost k = (entry_count - i) as nat;
            let (size, entry) = match values::Entry::take_from(rest)? {
                Some(x) => x,
                None => {
                    return Ok(None);
                },
            };
            proof {
                lemma_join_prepend(
                    (total_size - size1 - size2) as nat,
                    before,
                    size as nat,
                    (entry.id, model_of(entry.val)),
                    take_entries(rest@.subrange(size as int, rest@.len() as int), (k - 1) as nat),
                );
            }
            entries.push_back(entry);
            assert(entries_model(entries@) =~= before.push((entry.id, model_of(entry.val))));
            rest = slice_subrange(rest, size, rest.len());
            total_size = total_size + size;
            i = i + 1;
            assert(rest@ =~= r0.subrange(total_size - size1 - size2, r0.len() as int));
        }
        proof {
            lemma_join_end((total_size - size1 - size2) as nat, entries_model(entries@));
        }
        let table = values::Table { hash, entries };
        proof {
            crate::lemma_deque_entries_model(table.entries);
        }
        Ok(Some((total_size, table)))
    }
}

impl values::Entry {
    /// Reads a table entry that starts at `bytes[1]`: its id, the length of its
    /// value, and the value, which is read from the bytes that start at the last
    /// byte of the length.
    pub(crate) fn take_from(bytes: &[u8]) -> (r: Result<Option<(usize, values::Entry)>, Unsupported>)
        requires
            bytes@.len() < usize::MAX,
        ensures
            match take_entry(bytes@) {
                Outcome::Done(n, e) => r matches Ok(Some((k, x))) && k == n && x.id == e.0
                    && model_of(x.val) == e.1,
                Outcome::Fail => r matches Ok(None),
                Outcome::Abort => r is Err,
            },
            r matches Ok(Some((k, _))) ==> k <= bytes@.len(),
        decreases bytes@.len(), 0nat,
    {
        if bytes.len() == 0 {
            return Err(Unsupported);
        }
        let (size1, id) = match uint64(bytes) {
            Some(x) => x,
            None => {
                return Ok(None);
            },
        };
        let c = slice_subrange(bytes, size1, bytes.len());
        let (size2, len) = match uint64(c) {
            Some(x) => x,
            None => {
                return Ok(None);
            },
        };
        if len > (c.len() - size2) as u64 {
            return Err(Unsupported);
        }
        let end = size2 + len as usize;
        let v = slice_subrange(c, size2, end);
        match Value::take_from_raw(v)? {
            Some((_, val)) => Ok(Some((size1 + end, values::Entry { id, val }))),
            None => Ok(None),
        }
    }
}

impl values::Mapping {
    /// Reads a mapping whose tag is `bytes[0]`: its pair count, then the pairs,
    /// the first of which is read from the last byte of the count on.
    #[verifier::spinoff_prover]
    #[verifier::rlimit(50)]
    pub(crate) fn take_from_raw(bytes: &[u8]) -> (r: Result<Option<(usize, values::Mapping)>, Unsupported>)
        requires
            bytes@.len() >= 1,
            bytes@.len() < usize::MAX,
        ensures
            reads_as(take_mapping(bytes@), r, |x: values::Mapping| Value::Mapping(x)),
            r matches Ok(Some((k, _))) ==> k <= bytes@.len(),
        decreases bytes@.len(), 0nat,
    {
        let (size, entry_count) = match uint64(bytes) {
            Some(x) => x,
            None => {
                return Ok(None);
            },
        };
        let ghost r0 = bytes@.subrange(size as int, bytes@.len() as int);
        let mut rest = slice_subrange(bytes, size, bytes.len());
        let mut total_size: usize = size;
        let mut entries: VecDeque<(Value, Value)> = VecDeque::new();
        let mut i: u64 = 0;
        proof {
            lemma_join_nothing(take_pairs(r0, entry_count as nat));
            assert(pairs_model(entries@) =~= Seq::<(ValueModel, ValueModel)>::empty());
        }
        while i < entry_count
            invariant
                bytes@.len() < usize::MAX,
                r0.len() + size == bytes@.len(),
                size >= 1,
                size <= total_size,
                total_size - size <= r0.len(),
                rest@ == r0.subrange(total_size - size, r0.len() as int),
                i <= entry_count,
                take_mapping(bytes@) == match take_pairs(r0, entry_count as nat) {
                    Outcome::Done(m, ps) => Outcome::Done(
                        (size + m) as nat,
                        ValueModel::Mapping(ps),
                    ),
                    Outcome::Fail => Outcome::Fail,
                    Outcome::Abort => Outcome::Abort,
                },
                take_pairs(r0, entry_count as nat) == join(
                    (total_size - size) as nat,
                    pairs_model(entries@),
                    take_pairs(rest@, (entry_count - i) as nat),
                ),
            decreases entry_count - i,
        {
            let ghost before = pairs_model(entries@);
            let ghost k = (entry_count - i) as nat;
            let ghost r = rest@;
            let (size1, key) = match Value::take_from_raw(rest)? {
                Some(x) => x,
                None => {
                    return Ok(None);
                },
            };
            if size1 > rest.len() {
                return Err(Unsupported);
            }
            rest = slice_subrange(rest, size1, rest.len());
            let ghost r1 = rest@;
            let (size2, value) = match Value::take_from_raw(rest)? {
                Some(x) => x,
                None => {
                    return Ok(None);
                },
            };
            if size2 > rest.len() {
                return Err(Unsupported);
            }
            proof {
                lemma_join_prepend(
                    (total_size - size) as nat,
                    before,
                    (size1 + size2) as nat,
                    (key@, value@),
                    take_pairs(r1.subrange(size2 as int, r1.len() as int), (k - 1) as nat),
                );
            }
            rest = slice_subrange(rest, size2, rest.len());
            total_size = total_size + size1 + size2;
            entries.push_back((key, value));
            assert(pairs_model(entries@) =~= before.push((key@, value@)));
            i = i + 1;
            assert(rest@ =~= r0.subrange(total_size - size, r0.len() as int));
        }
        proof {
            lemma_join_end((total_size - size) as nat, pairs_model(entries@));
        }
        let mapping = values::Mapping { entries };
        proof {
            crate::lemma_deque_pairs_model(mapping.entries);
        }
        Ok(Some((total_size, mapping)))
    }
}

} // verus!
