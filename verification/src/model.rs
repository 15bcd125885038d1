//! The mathematical model of values, their byte encoding, and the parse
//! relation that the readers implement.
use vstd::bytes::*;
use vstd::prelude::*;

verus! {

/// What a [`crate::Value`] denotes: the same tree, with sequences in place of vectors.
/// Floating-point payloads are kept as their IEEE-754 bit patterns.
pub enum ValueModel {
    FixInt(i8),
    U8(u8),
    U16(u16),
    U32(u32),
    U64(u64),
    I8(i8),
    I16(i16),
    I32(i32),
    I64(i64),
    F32(u32),
    F64(u64),
    Table { hash: u64, entries: Seq<(u64, ValueModel)> },
    Error(i64),
    Handle { value: Box<ValueModel>, ref_num: i64 },
    Variant(Option<(i64, Box<ValueModel>)>),
    Structure(Seq<ValueModel>),
    Array(Seq<ValueModel>),
    Mapping(Seq<(ValueModel, ValueModel)>),
    Bytes(Seq<u8>),
    String(Seq<u8>),
    Nil,
}

/// The three ways a parse of a byte sequence can end: it reads a value and
/// reports how many bytes it used, it finds no value, or it reaches an input
/// that this format does not support at all (the reserved extension tag, or a
/// declared length or offset that points outside the input).
pub enum Outcome<T> {
    Done(nat, T),
    Fail,
    Abort,
}

// ---------------------------------------------------------------------------
// Compact integers
// ---------------------------------------------------------------------------
/// The smallest signed representation of `n`: a one-byte fixint for
/// `-64..=127`, then `I8`, `I16`, `I32`, `I64`.
pub open spec fn put_signed(n: i64) -> ValueModel {
    if -64 <= n <= 127 {
        ValueModel::FixInt(n as i8)
    } else if -128 <= n <= 127 {
        ValueModel::I8(n as i8)
    } else if -0x8000 <= n <= 0x7fff {
        ValueModel::I16(n as i16)
    } else if -0x8000_0000 <= n <= 0x7fff_ffff {
        ValueModel::I32(n as i32)
    } else {
        ValueModel::I64(n)
    }
}

/// The smallest unsigned representation of `n`: a one-byte fixint for
/// `0..=127`, then `U8`, `U16`, `U32`, `U64`.
pub open spec fn put_unsigned(n: u64) -> ValueModel {
    if n <= 127 {
        ValueModel::FixInt(n as i8)
    } else if n <= 0xff {
        ValueModel::U8(n as u8)
    } else if n <= 0xffff {
        ValueModel::U16(n as u16)
    } else if n <= 0xffff_ffff {
        ValueModel::U32(n as u32)
    } else {
        ValueModel::U64(n)
    }
}

/// The integer that a numeric model denotes (0 for the other kinds).
pub open spec fn int_of(m: ValueModel) -> int {
    match m {
        ValueModel::FixInt(n) => n as int,
        ValueModel::U8(n) => n as int,
        ValueModel::U16(n) => n as int,
        ValueModel::U32(n) => n as int,
        ValueModel::U64(n) => n as int,
        ValueModel::I8(n) => n as int,
        ValueModel::I16(n) => n as int,
        ValueModel::I32(n) => n as int,
        ValueModel::I64(n) => n as int,
        _ => 0,
    }
}

// ---------------------------------------------------------------------------
// Encoding
// ---------------------------------------------------------------------------
/// The bytes of a scalar: the fixint byte, or a tag byte followed by the
/// little-endian payload. Other kinds have no scalar encoding.
pub open spec fn encode_scalar(m: ValueModel) -> Seq<u8> {
    match m {
        ValueModel::FixInt(n) => seq![n as u8],
        ValueModel::U8(n) => seq![0x80u8, n],
        ValueModel::U16(n) => seq![0x81u8] + spec_u16_to_le_bytes(n),
        ValueModel::U32(n) => seq![0x82u8] + spec_u32_to_le_bytes(n),
        ValueModel::U64(n) => seq![0x83u8] + spec_u64_to_le_bytes(n),
        ValueModel::I8(n) => seq![0x84u8, n as u8],
        ValueModel::I16(n) => seq![0x85u8] + spec_u16_to_le_bytes(n as u16),
        ValueModel::I32(n) => seq![0x86u8] + spec_u32_to_le_bytes(n as u32),
        ValueModel::I64(n) => seq![0x87u8] + spec_u64_to_le_bytes(n as u64),
        ValueModel::F32(b) => seq![0x88u8] + spec_u32_to_le_bytes(b),
        ValueModel::F64(b) => seq![0x89u8] + spec_u64_to_le_bytes(b),
        ValueModel::Nil => seq![0xbeu8],
        _ => seq![],
    }
}

/// Whether `m` is a number or nil, the kinds that have a scalar encoding.
pub open spec fn is_scalar(m: ValueModel) -> bool {
    match m {
        ValueModel::Table { .. } | ValueModel::Error(_) | ValueModel::Handle { .. }
        | ValueModel::Variant(_) | ValueModel::Structure(_) | ValueModel::Array(_)
        | ValueModel::Mapping(_) | ValueModel::Bytes(_) | ValueModel::String(_) => false,
        _ => true,
    }
}

/// The encoding of an unsigned count or id in its smallest form.
pub open spec fn encode_uint(n: u64) -> Seq<u8> {
    encode_scalar(put_unsigned(n))
}

/// The encoding of a signed number in its smallest form.
pub open spec fn encode_int(n: i64) -> Seq<u8> {
    encode_scalar(put_signed(n))
}

/// The encoding of a byte string: its length, then the bytes.
pub open spec fn encode_blob(b: Seq<u8>) -> Seq<u8> {
    encode_uint(b.len() as u64) + b
}

/// The byte encoding of a value, as `write` produces it.
pub open spec fn encode(m: ValueModel) -> Seq<u8>
    decreases m,
{
    match m {
        ValueModel::Table { hash, entries } => seq![0xb5u8] + encode_uint(hash) + encode_uint(
            entries.len() as u64,
        ) + encode_entries(entries),
        ValueModel::Error(e) => seq![0xb6u8] + encode_int(e),
        ValueModel::Handle { value, ref_num } => seq![0xb7u8] + encode(*value) + encode_int(
            ref_num,
        ),
        ValueModel::Variant(inner) => match inner {
            Some((index, value)) => seq![0xb8u8] + encode_int(index) + encode(*value),
            None => seq![0xb8u8] + encode_int(-1i64) + seq![0xbeu8],
        },
        ValueModel::Structure(values) => seq![0xb9u8] + encode_uint(values.len() as u64)
            + encode_values(values),
        ValueModel::Array(values) => seq![0xbau8] + encode_uint(values.len() as u64)
            + encode_values(values),
        ValueModel::Mapping(pairs) => seq![0xbbu8] + encode_uint(pairs.len() as u64)
            + encode_pairs(pairs),
        ValueModel::Bytes(b) => seq![0xbcu8] + encode_blob(b),
        ValueModel::String(b) => seq![0xbdu8] + encode_blob(b),
        _ => encode_scalar(m),
    }
}

/// The encodings of a sequence of values, one after the other.
pub open spec fn encode_values(s: Seq<ValueModel>) -> Seq<u8>
    decreases s,
{
    if s.len() == 0 {
        seq![]
    } else {
        encode_values(s.drop_last()) + encode(s.last())
    }
}

/// One table entry: its id, the length of its value's encoding, then that encoding.
pub open spec fn encode_entry(id: u64, val: ValueModel) -> Seq<u8> {
    encode_uint(id) + encode_uint(encode(val).len() as u64) + encode(val)
}

/// The encodings of a sequence of table entries, one after the other.
pub open spec fn encode_entries(s: Seq<(u64, ValueModel)>) -> Seq<u8>
    decreases s,
{
    if s.len() == 0 {
        seq![]
    } else {
        encode_entries(s.drop_last()) + encode_uint(s.last().0) + encode_uint(
            encode(s.last().1).len() as u64,
        ) + encode(s.last().1)
    }
}

/// The encodings of a sequence of key/value pairs: key, then value, for each.
pub open spec fn encode_pairs(s: Seq<(ValueModel, ValueModel)>) -> Seq<u8>
    decreases s,
{
    if s.len() == 0 {
        seq![]
    } else {
        encode_pairs(s.drop_last()) + encode(s.last().0) + encode(s.last().1)
    }
}

// ---------------------------------------------------------------------------
// Parsing
// ---------------------------------------------------------------------------
// The readers below take the input with one byte in front of the item they
// read (the tag of the enclosing value, or the last byte of the previous
// field), and report how many bytes after that first byte they used.
/// Reads an unsigned integer that starts at `s[1]`.
pub open spec fn read_uint(s: Seq<u8>) -> Outcome<u64> {
    if s.len() == 0 {
        Outcome::Abort
    } else if s.len() < 2 {
        Outcome::Fail
    } else {
        let t = s[1];
        if t <= 0x7f {
            Outcome::Done(1, t as u64)
        } else if t == 0x80 {
            if s.len() >= 3 {
                Outcome::Done(2, s[2] as u64)
            } else {
                Outcome::Fail
            }
        } else if t == 0x81 {
            if s.len() >= 4 {
                Outcome::Done(3, spec_u16_from_le_bytes(s.subrange(2, 4)) as u64)
            } else {
                Outcome::Fail
            }
        } else if t == 0x82 {
            if s.len() >= 6 {
                Outcome::Done(5, spec_u32_from_le_bytes(s.subrange(2, 6)) as u64)
            } else {
                Outcome::Fail
            }
        } else if t == 0x83 {
            if s.len() >= 10 {
                Outcome::Done(9, spec_u64_from_le_bytes(s.subrange(2, 10)))
            } else {
                Outcome::Fail
            }
        } else {
            Outcome::Fail
        }
    }
}

/// Reads a signed integer that starts at `s[1]`.
pub open spec fn read_int(s: Seq<u8>) -> Outcome<i64> {
    if s.len() == 0 {
        Outcome::Abort
    } else if s.len() < 2 {
        Outcome::Fail
    } else {
        let t = s[1];
        if t <= 0x7f || t >= 0xc0 {
            Outcome::Done(1, (t as i8) as i64)
        } else if t == 0x84 {
            if s.len() >= 3 {
                Outcome::Done(2, (s[2] as i8) as i64)
            } else {
                Outcome::Fail
            }
        } else if t == 0x85 {
            if s.len() >= 4 {
                Outcome::Done(3, (spec_u16_from_le_bytes(s.subrange(2, 4)) as i16) as i64)
            } else {
                Outcome::Fail
            }
        } else if t == 0x86 {
            if s.len() >= 6 {
                Outcome::Done(5, (spec_u32_from_le_bytes(s.subrange(2, 6)) as i32) as i64)
            } else {
                Outcome::Fail
            }
        } else if t == 0x87 {
            if s.len() >= 10 {
                Outcome::Done(9, spec_u64_from_le_bytes(s.subrange(2, 10)) as i64)
            } else {
                Outcome::Fail
            }
        } else {
            Outcome::Fail
        }
    }
}

/// Reads a length-prefixed byte string whose length starts at `s[1]`.
pub open spec fn take_blob(s: Seq<u8>) -> Outcome<Seq<u8>> {
    match read_uint(s) {
        Outcome::Done(n, len) => if n + len + 1 <= s.len() {
            Outcome::Done((n + len) as nat, s.subrange(n + 1 as int, n + 1 + len as int))
        } else {
            Outcome::Fail
        },
        Outcome::Fail => Outcome::Fail,
        Outcome::Abort => Outcome::Abort,
    }
}

/// Reads a scalar whose tag is `s[0]` (the caller has checked that `s` is not empty
/// and that the tag is a scalar tag).
pub open spec fn take_scalar(s: Seq<u8>) -> Outcome<ValueModel> {
    let t = s[0];
    if t <= 0x7f || t >= 0xc0 {
        Outcome::Done(1, ValueModel::FixInt(t as i8))
    } else if t == 0x80 || t == 0x84 {
        if s.len() >= 2 {
            Outcome::Done(
                2,
                if t == 0x80 {
                    ValueModel::U8(s[1])
                } else {
                    ValueModel::I8(s[1] as i8)
                },
            )
        } else {
            Outcome::Fail
        }
    } else if t == 0x81 || t == 0x85 {
        if s.len() >= 3 {
            let x = spec_u16_from_le_bytes(s.subrange(1, 3));
            Outcome::Done(
                3,
                if t == 0x81 {
                    ValueModel::U16(x)
                } else {
                    ValueModel::I16(x as i16)
                },
            )
        } else {
            Outcome::Fail
        }
    } else if t == 0x82 || t == 0x86 || t == 0x88 {
        if s.len() >= 5 {
            let x = spec_u32_from_le_bytes(s.subrange(1, 5));
            Outcome::Done(
                5,
                if t == 0x82 {
                    ValueModel::U32(x)
                } else if t == 0x86 {
                    ValueModel::I32(x as i32)
                } else {
                    ValueModel::F32(x)
                },
            )
        } else {
            Outcome::Fail
        }
    } else if t == 0x83 || t == 0x87 || t == 0x89 {
        if s.len() >= 9 {
            let x = spec_u64_from_le_bytes(s.subrange(1, 9));
            Outcome::Done(
                9,
                if t == 0x83 {
                    ValueModel::U64(x)
                } else if t == 0x87 {
                    ValueModel::I64(x as i64)
                } else {
                    ValueModel::F64(x)
                },
            )
        } else {
            Outcome::Fail
        }
    } else {
        Outcome::Fail
    }
}

/// Whether `t` is the tag of a scalar (a fixint byte or `0x80..=0x89`).
pub open spec fn is_scalar_tag(t: u8) -> bool {
    t <= 0x89 || t >= 0xc0
}

/// Adds the tag byte to the count of a value reader.
pub open spec fn with_tag(o: Outcome<ValueModel>) -> Outcome<ValueModel> {
    match o {
        Outcome::Done(n, m) => Outcome::Done(n + 1, m),
        Outcome::Fail => Outcome::Fail,
        Outcome::Abort => Outcome::Abort,
    }
}

/// Puts `x`, read from `n` bytes, in front of what the rest of a loop read.
pub open spec fn prepend<T>(n: nat, x: T, o: Outcome<Seq<T>>) -> Outcome<Seq<T>> {
    match o {
        Outcome::Done(m, xs) => Outcome::Done(n + m, seq![x] + xs),
        Outcome::Fail => Outcome::Fail,
        Outcome::Abort => Outcome::Abort,
    }
}

/// Puts the items `pre`, read from `n` bytes, in front of what the rest of a loop read.
pub open spec fn join<T>(n: nat, pre: Seq<T>, o: Outcome<Seq<T>>) -> Outcome<Seq<T>> {
    match o {
        Outcome::Done(m, xs) => Outcome::Done(n + m, pre + xs),
        Outcome::Fail => Outcome::Fail,
        Outcome::Abort => Outcome::Abort,
    }
}

/// Reads one value whose tag is `s[0]`.
pub open spec fn take_value(s: Seq<u8>) -> Outcome<ValueModel>
    decreases s.len(), 1nat, 0nat,
{
    if s.len() == 0 {
        Outcome::Fail
    } else {
        let t = s[0];
        if is_scalar_tag(t) {
            take_scalar(s)
        } else if t == 0xb5 {
            with_tag(take_table(s))
        } else if t == 0xb6 {
            with_tag(take_error(s))
        } else if t == 0xb7 {
            with_tag(take_handle(s))
        } else if t == 0xb8 {
            with_tag(take_variant(s))
        } else if t == 0xb9 || t == 0xba {
            match take_values(s) {
                Outcome::Done(n, vs) => Outcome::Done(
                    n + 1,
                    if t == 0xb9 {
                        ValueModel::Structure(vs)
                    } else {
                        ValueModel::Array(vs)
                    },
                ),
                Outcome::Fail => Outcome::Fail,
                Outcome::Abort => Outcome::Abort,
            }
        } else if t == 0xbb {
            with_tag(take_mapping(s))
        } else if t == 0xbc || t == 0xbd {
            match take_blob(s) {
                Outcome::Done(n, b) => Outcome::Done(
                    n + 1,
                    if t == 0xbc {
                        ValueModel::Bytes(b)
                    } else {
                        ValueModel::String(b)
                    },
                ),
                Outcome::Fail => Outcome::Fail,
                Outcome::Abort => Outcome::Abort,
            }
        } else if t == 0xbe {
            Outcome::Done(1, ValueModel::Nil)
        } else if t == 0xbf {
            Outcome::Abort
        } else {
            Outcome::Fail
        }
    }
}

/// Reads a table after its tag `s[0]`: the hash, the entry count, then the entries.
pub open spec fn take_table(s: Seq<u8>) -> Outcome<ValueModel>
    decreases s.len(), 0nat, 0nat,
{
    match read_uint(s) {
        Outcome::Done(n1, hash) => {
            let s1 = s.subrange(n1 as int, s.len() as int);
            match read_uint(s1) {
                Outcome::Done(n2, count) => {
                    let s2 = s1.subrange(n2 as int, s1.len() as int);
                    match take_entries(s2, count as nat) {
                        Outcome::Done(m, es) => Outcome::Done(
                            n1 + n2 + m,
                            ValueModel::Table { hash, entries: es },
                        ),
                        Outcome::Fail => Outcome::Fail,
                        Outcome::Abort => Outcome::Abort,
                    }
                },
                Outcome::Fail => Outcome::Fail,
                Outcome::Abort => Outcome::Abort,
            }
        },
        Outcome::Fail => Outcome::Fail,
        Outcome::Abort => Outcome::Abort,
    }
}

/// Reads `k` table entries, each starting after `r[0]`.
pub open spec fn take_entries(r: Seq<u8>, k: nat) -> Outcome<Seq<(u64, ValueModel)>>
    decreases r.len(), 2nat, k,
{
    if k == 0 {
        Outcome::Done(0, seq![])
    } else {
        match take_entry(r) {
            Outcome::Done(n, e) => if n <= r.len() {
                prepend(n, e, take_entries(r.subrange(n as int, r.len() as int), (k - 1) as nat))
            } else {
                Outcome::Abort
            },
            Outcome::Fail => Outcome::Fail,
            Outcome::Abort => Outcome::Abort,
        }
    }
}

/// Reads one table entry after `s[0]`: its id, the length `len` of its value, and
/// the value, which is read from the `len` bytes that start at the last byte of
/// the length field.
pub open spec fn take_entry(s: Seq<u8>) -> Outcome<(u64, ValueModel)>
    decreases s.len(), 0nat, 0nat,
{
    match read_uint(s) {
        Outcome::Done(a, id) => {
            let c = s.subrange(a as int, s.len() as int);
            match read_uint(c) {
                Outcome::Done(d, len) => if d + len <= c.len() {
                    match take_value(c.subrange(d as int, d + len)) {
                        Outcome::Done(_, v) => Outcome::Done((a + d + len) as nat, (id, v)),
                        Outcome::Fail => Outcome::Fail,
                        Outcome::Abort => Outcome::Abort,
                    }
                } else {
                    Outcome::Abort
                },
                Outcome::Fail => Outcome::Fail,
                Outcome::Abort => Outcome::Abort,
            }
        },
        Outcome::Fail => Outcome::Fail,
        Outcome::Abort => Outcome::Abort,
    }
}

/// Reads an error after its tag `s[0]`: the code is read as a signed integer
/// that starts two bytes after the tag.
pub open spec fn take_error(s: Seq<u8>) -> Outcome<ValueModel> {
    if s.len() == 0 {
        Outcome::Abort
    } else {
        match read_int(s.subrange(1, s.len() as int)) {
            Outcome::Done(n, code) => Outcome::Done(n, ValueModel::Error(code)),
            Outcome::Fail => Outcome::Fail,
            Outcome::Abort => Outcome::Abort,
        }
    }
}

/// Reads a handle after its tag `s[0]`: the wrapped value, then the reference
/// number, read as a signed integer that starts one byte after the value.
pub open spec fn take_handle(s: Seq<u8>) -> Outcome<ValueModel>
    decreases s.len(), 0nat, 0nat,
{
    if s.len() == 0 {
        Outcome::Abort
    } else {
        let c = s.subrange(1, s.len() as int);
        match take_value(c) {
            Outcome::Done(n1, v) => if n1 <= c.len() {
                match read_int(c.subrange(n1 as int, c.len() as int)) {
                    Outcome::Done(n2, r) => Outcome::Done(
                        n1 + n2,
                        ValueModel::Handle { value: Box::new(v), ref_num: r },
                    ),
                    Outcome::Fail => Outcome::Fail,
                    Outcome::Abort => Outcome::Abort,
                }
            } else {
                Outcome::Abort
            },
            Outcome::Fail => Outcome::Fail,
            Outcome::Abort => Outcome::Abort,
        }
    }
}

/// Reads a variant after its tag `s[0]`: the index, then the value. Index -1 is
/// the empty variant; a smaller index is not a variant.
pub open spec fn take_variant(s: Seq<u8>) -> Outcome<ValueModel>
    decreases s.len(), 0nat, 0nat,
{
    match read_int(s) {
        Outcome::Done(n, index) => match take_value(s.subrange(n + 1 as int, s.len() as int)) {
            Outcome::Done(m, v) => if index < -1 {
                Outcome::Fail
            } else if index == -1 {
                Outcome::Done(n + m, ValueModel::Variant(None))
            } else {
                Outcome::Done(n + m, ValueModel::Variant(Some((index, Box::new(v)))))
            },
            Outcome::Fail => Outcome::Fail,
            Outcome::Abort => Outcome::Abort,
        },
        Outcome::Fail => Outcome::Fail,
        Outcome::Abort => Outcome::Abort,
    }
}

/// Reads a count after `s[0]`, then that many values.
pub open spec fn take_values(s: Seq<u8>) -> Outcome<Seq<ValueModel>>
    decreases s.len(), 0nat, 0nat,
{
    match read_uint(s) {
        Outcome::Done(n, k) => match take_value_list(s.subrange(n + 1 as int, s.len() as int), k as nat) {
            Outcome::Done(m, vs) => Outcome::Done(n + m, vs),
            Outcome::Fail => Outcome::Fail,
            Outcome::Abort => Outcome::Abort,
        },
        Outcome::Fail => Outcome::Fail,
        Outcome::Abort => Outcome::Abort,
    }
}

/// Reads `k` values one after the other, the first with its tag at `r[0]`.
pub open spec fn take_value_list(r: Seq<u8>, k: nat) -> Outcome<Seq<ValueModel>>
    decreases r.len(), 2nat, k,
{
    if k == 0 {
        Outcome::Done(0, seq![])
    } else {
        match take_value(r) {
            Outcome::Done(n, v) => if n <= r.len() {
                prepend(n, v, take_value_list(r.subrange(n as int, r.len() as int), (k - 1) as nat))
            } else {
                Outcome::Abort
            },
            Outcome::Fail => Outcome::Fail,
            Outcome::Abort => Outcome::Abort,
        }
    }
}

/// Reads a mapping after its tag `s[0]`: the pair count, then the pairs, the
/// first of which starts at the last byte of the count.
pub open spec fn take_mapping(s: Seq<u8>) -> Outcome<ValueModel>
    decreases s.len(), 0nat, 0nat,
{
    match read_uint(s) {
        Outcome::Done(n, k) => match take_pairs(s.subrange(n as int, s.len() as int), k as nat) {
            Outcome::Done(m, ps) => Outcome::Done(n + m, ValueModel::Mapping(ps)),
            Outcome::Fail => Outcome::Fail,
            Outcome::Abort => Outcome::Abort,
        },
        Outcome::Fail => Outcome::Fail,
        Outcome::Abort => Outcome::Abort,
    }
}

/// Reads `k` key/value pairs one after the other, starting with the tag at `r[0]`.
pub open spec fn take_pairs(r: Seq<u8>, k: nat) -> Outcome<Seq<(ValueModel, ValueModel)>>
    decreases r.len(), 2nat, k,
{
    if k == 0 {
        Outcome::Done(0, seq![])
    } else {
        match take_value(r) {
            Outcome::Done(n1, key) => if n1 <= r.len() {
                let r1 = r.subrange(n1 as int, r.len() as int);
                match take_value(r1) {
                    Outcome::Done(n2, val) => if n2 <= r1.len() {
                        prepend(
                            n1 + n2,
                            (key, val),
                            take_pairs(r1.subrange(n2 as int, r1.len() as int), (k - 1) as nat),
                        )
                    } else {
                        Outcome::Abort
                    },
                    Outcome::Fail => Outcome::Fail,
                    Outcome::Abort => Outcome::Abort,
                }
            } else {
                Outcome::Abort
            },
            Outcome::Fail => Outcome::Fail,
            Outcome::Abort => Outcome::Abort,
        }
    }
}

} // verus!
