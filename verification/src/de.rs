//! The decisions of a deserializer from this format: which values stand for
//! which parts of a data structure.
use std::collections::VecDeque;

use vstd::prelude::*;

use crate::values;
use crate::model::ValueModel;
use crate::Value;
use vstd::utf8::{decode_utf8, valid_utf8};

verus! {

broadcast use crate::group_deque_models;

/// Why a value could not be taken apart.
#[derive(Debug, PartialEq)]
pub enum Error {
    /// The value is not of the kind asked for.
    Mismatch,
    /// The data structure reported an error of its own.
    Other,
}

/// How a value holds an option.
#[derive(Debug, PartialEq)]
pub enum OptionForm {
    /// The option is absent.
    Absent,
    /// The option is present, and its contents are the value held by the variant.
    InVariant,
    /// The option is present, and its contents are the value itself.
    Itself,
    /// The value does not hold an option.
    Mismatch,
}

/// The integer held by a fixint or by a signed integer of at most `bits` bits.
pub open spec fn signed_within(m: ValueModel, bits: nat) -> Option<int> {
    match m {
        ValueModel::FixInt(n) => Some(n as int),
        ValueModel::I8(n) => Some(n as int),
        ValueModel::I16(n) => if 16 <= bits {
            Some(n as int)
        } else {
            None
        },
        ValueModel::I32(n) => if 32 <= bits {
            Some(n as int)
        } else {
            None
        },
        ValueModel::I64(n) => if 64 <= bits {
            Some(n as int)
        } else {
            None
        },
        _ => None,
    }
}

/// The integer held by a fixint of at least 0 or by an unsigned integer of at
/// most `bits` bits.
pub open spec fn unsigned_within(m: ValueModel, bits: nat) -> Option<int> {
    match m {
        ValueModel::FixInt(n) => if n >= 0 {
            Some(n as int)
        } else {
            None
        },
        ValueModel::U8(n) => Some(n as int),
        ValueModel::U16(n) => if 16 <= bits {
            Some(n as int)
        } else {
            None
        },
        ValueModel::U32(n) => if 32 <= bits {
            Some(n as int)
        } else {
            None
        },
        ValueModel::U64(n) => if 64 <= bits {
            Some(n as int)
        } else {
            None
        },
        _ => None,
    }
}

/// What a read that follows the value's own kind makes of it.
#[derive(Debug, PartialEq)]
pub enum AnyForm {
    I8(i8),
    I16(i16),
    I32(i32),
    I64(i64),
    U8(u8),
    U16(u16),
    U32(u32),
    U64(u64),
    /// The bit pattern of a 32-bit float.
    F32(u32),
    /// The bit pattern of a 64-bit float.
    F64(u64),
    /// A variant, to be read as an enum.
    Enum(Value),
    /// The values of a structure or an array, to be read as a sequence.
    Sequence(VecDeque<Value>),
    /// The key/value pairs of a mapping.
    Pairs(VecDeque<(Value, Value)>),
    Bytes(Vec<u8>),
    Text(std::string::String),
    /// Nil, read as the unit.
    Unit,
    /// A table, an error or a handle, which data structures have no form for.
    Unsupported,
}

/// Takes `v` apart by its own kind: integers and floats as themselves, variants
/// as enums, structures and arrays as sequences, mappings as pairs, byte strings as
/// bytes, strings as text where they are UTF-8, and nil as the unit.
pub fn any_form(v: Value) -> (r: Result<AnyForm, Error>)
    ensures
        match v {
            Value::FixInt(n) => r == Ok::<AnyForm, Error>(AnyForm::I8(n)),
            Value::I8(n) => r == Ok::<AnyForm, Error>(AnyForm::I8(n)),
            Value::I16(n) => r == Ok::<AnyForm, Error>(AnyForm::I16(n)),
            Value::I32(n) => r == Ok::<AnyForm, Error>(AnyForm::I32(n)),
            Value::I64(n) => r == Ok::<AnyForm, Error>(AnyForm::I64(n)),
            Value::U8(n) => r == Ok::<AnyForm, Error>(AnyForm::U8(n)),
            Value::U16(n) => r == Ok::<AnyForm, Error>(AnyForm::U16(n)),
            Value::U32(n) => r == Ok::<AnyForm, Error>(AnyForm::U32(n)),
            Value::U64(n) => r == Ok::<AnyForm, Error>(AnyForm::U64(n)),
            Value::F32(b) => r == Ok::<AnyForm, Error>(AnyForm::F32(b)),
            Value::F64(b) => r == Ok::<AnyForm, Error>(AnyForm::F64(b)),
            Value::Table(_) | Value::Error(_) | Value::Handle(_) => r == Ok::<AnyForm, Error>(
                AnyForm::Unsupported,
            ),
            Value::Variant(x) => r == Ok::<AnyForm, Error>(AnyForm::Enum(Value::Variant(x))),
            Value::Structure(x) => r == Ok::<AnyForm, Error>(AnyForm::Sequence(x.values)),
            Value::Array(x) => r == Ok::<AnyForm, Error>(AnyForm::Sequence(x.values)),
            Value::Mapping(x) => r == Ok::<AnyForm, Error>(AnyForm::Pairs(x.entries)),
            Value::Bytes(x) => r == Ok::<AnyForm, Error>(AnyForm::Bytes(x.inner)),
            Value::String(x) => if valid_utf8(x.inner@) {
                r matches Ok(AnyForm::Text(t)) && t@ == decode_utf8(x.inner@)
            } else {
                r matches Err(e) && e == Error::Mismatch
            },
            Value::Nil => r == Ok::<AnyForm, Error>(AnyForm::Unit),
        },
{
    match v {
        Value::FixInt(n) | Value::I8(n) => Ok(AnyForm::I8(n)),
        Value::I16(n) => Ok(AnyForm::I16(n)),
        Value::I32(n) => Ok(AnyForm::I32(n)),
        Value::I64(n) => Ok(AnyForm::I64(n)),
        Value::U8(n) => Ok(AnyForm::U8(n)),
        Value::U16(n) => Ok(AnyForm::U16(n)),
        Value::U32(n) => Ok(AnyForm::U32(n)),
        Value::U64(n) => Ok(AnyForm::U64(n)),
        Value::F32(b) => Ok(AnyForm::F32(b)),
        Value::F64(b) => Ok(AnyForm::F64(b)),
        Value::Table(_) | Value::Error(_) | Value::Handle(_) => Ok(AnyForm::Unsupported),
        Value::Variant(x) => Ok(AnyForm::Enum(Value::Variant(x))),
        Value::Structure(x) => Ok(AnyForm::Sequence(x.values)),
        Value::Array(x) => Ok(AnyForm::Sequence(x.values)),
        Value::Mapping(x) => Ok(AnyForm::Pairs(x.entries)),
        Value::Bytes(x) => Ok(AnyForm::Bytes(x.inner)),
        Value::String(x) => match string_from_utf8(x.inner) {
            Some(t) => Ok(AnyForm::Text(t)),
            None => Err(Error::Mismatch),
        },
        Value::Nil => Ok(AnyForm::Unit),
    }
}

/// The boolean of a fixint: 0 is `true` and 1 is `false`.
pub fn expect_bool(v: &Value) -> (r: Result<bool, Error>)
    ensures
        r == match *v {
            Value::FixInt(n) => if n == 0 {
                Ok(true)
            } else if n == 1 {
                Ok(false)
            } else {
                Err(Error::Mismatch)
            },
            _ => Err(Error::Mismatch),
        },
{
    match v {
        Value::FixInt(n) => if *n == 0 {
            Ok(true)
        } else if *n == 1 {
            Ok(false)
        } else {
            Err(Error::Mismatch)
        },
        _ => Err(Error::Mismatch),
    }
}

/// An `i8` from a fixint or an `I8`.
pub fn expect_i8(v: &Value) -> (r: Result<i8, Error>)
    ensures
        r == match signed_within(v@, 8) {
            Some(n) => Ok(n as i8),
            None => Err(Error::Mismatch),
        },
{
    match v {
        Value::FixInt(n) | Value::I8(n) => Ok(*n),
        _ => Err(Error::Mismatch),
    }
}

/// An `i16` from a fixint, an `I8` or an `I16`.
pub fn expect_i16(v: &Value) -> (r: Result<i16, Error>)
    ensures
        r == match signed_within(v@, 16) {
            Some(n) => Ok(n as i16),
            None => Err(Error::Mismatch),
        },
{
    match v {
        Value::FixInt(n) | Value::I8(n) => Ok(*n as i16),
        Value::I16(n) => Ok(*n),
        _ => Err(Error::Mismatch),
    }
}

/// An `i32` from a fixint or a signed integer of at most 32 bits.
pub fn expect_i32(v: &Value) -> (r: Result<i32, Error>)
    ensures
        r == match signed_within(v@, 32) {
            Some(n) => Ok(n as i32),
            None => Err(Error::Mismatch),
        },
{
    match v {
        Value::FixInt(n) | Value::I8(n) => Ok(*n as i32),
        Value::I16(n) => Ok(*n as i32),
        Value::I32(n) => Ok(*n),
        _ => Err(Error::Mismatch),
    }
}

/// An `i64` from a fixint or a signed integer.
pub fn expect_i64(v: &Value) -> (r: Result<i64, Error>)
    ensures
        r == match signed_within(v@, 64) {
            Some(n) => Ok(n as i64),
            None => Err(Error::Mismatch),
        },
{
    match v {
        Value::FixInt(n) | Value::I8(n) => Ok(*n as i64),
        Value::I16(n) => Ok(*n as i64),
        Value::I32(n) => Ok(*n as i64),
        Value::I64(n) => Ok(*n),
        _ => Err(Error::Mismatch),
    }
}

/// A `u8` from a fixint of at least 0 or a `U8`.
pub fn expect_u8(v: &Value) -> (r: Result<u8, Error>)
    ensures
        r == match unsigned_within(v@, 8) {
            Some(n) => Ok(n as u8),
            None => Err(Error::Mismatch),
        },
{
    match v {
        Value::FixInt(n) => if *n >= 0 {
            Ok(*n as u8)
        } else {
            Err(Error::Mismatch)
        },
        Value::U8(n) => Ok(*n),
        _ => Err(Error::Mismatch),
    }
}

/// A `u16` from a fixint of at least 0, a `U8` or a `U16`.
pub fn expect_u16(v: &Value) -> (r: Result<u16, Error>)
    ensures
        r == match unsigned_within(v@, 16) {
            Some(n) => Ok(n as u16),
            None => Err(Error::Mismatch),
        },
{
    match v {
        Value::FixInt(n) => if *n >= 0 {
            Ok(*n as u16)
        } else {
            Err(Error::Mismatch)
        },
        Value::U8(n) => Ok(*n as u16),
        Value::U16(n) => Ok(*n),
        _ => Err(Error::Mismatch),
    }
}

/// A `u32` from a fixint of at least 0 or an unsigned integer of at most 32 bits.
pub fn expect_u32(v: &Value) -> (r: Result<u32, Error>)
    ensures
        r == match unsigned_within(v@, 32) {
            Some(n) => Ok(n as u32),
            None => Err(Error::Mismatch),
        },
{
    match v {
        Value::FixInt(n) => if *n >= 0 {
            Ok(*n as u32)
        } else {
            Err(Error::Mismatch)
        },
        Value::U8(n) => Ok(*n as u32),
        Value::U16(n) => Ok(*n as u32),
        Value::U32(n) => Ok(*n),
        _ => Err(Error::Mismatch),
    }
}

/// A `u64` from a fixint of at least 0 or an unsigned integer.
pub fn expect_u64(v: &Value) -> (r: Result<u64, Error>)
    ensures
        r == match unsigned_within(v@, 64) {
            Some(n) => Ok(n as u64),
            None => Err(Error::Mismatch),
        },
{
    match v {
        Value::FixInt(n) => if *n >= 0 {
            Ok(*n as u64)
        } else {
            Err(Error::Mismatch)
        },
        Value::U8(n) => Ok(*n as u64),
        Value::U16(n) => Ok(*n as u64),
        Value::U32(n) => Ok(*n as u64),
        Value::U64(n) => Ok(*n),
        _ => Err(Error::Mismatch),
    }
}

/// The bit pattern of a 32-bit float.
pub fn expect_f32_bits(v: &Value) -> (r: Result<u32, Error>)
    ensures
        r == match *v {
            Value::F32(b) => Ok(b),
            _ => Err(Error::Mismatch),
        },
{
    match v {
        Value::F32(b) => Ok(*b),
        _ => Err(Error::Mismatch),
    }
}

/// The bit pattern of a 64-bit float.
pub fn expect_f64_bits(v: &Value) -> (r: Result<u64, Error>)
    ensures
        r == match *v {
            Value::F64(b) => Ok(b),
            _ => Err(Error::Mismatch),
        },
{
    match v {
        Value::F64(b) => Ok(*b),
        _ => Err(Error::Mismatch),
    }
}

/// Whether `n` is a Unicode scalar value, the code points that a `char` can hold.
pub open spec fn is_char_code(n: u32) -> bool {
    n <= 0xd7ff || (0xe000 <= n && n <= 0x10ffff)
}

/// The character held by a fixint of at least 0 or a `U8` (read as Latin-1), or
/// by a `U16` or `U32` that is a Unicode scalar value.
pub open spec fn char_of(m: ValueModel) -> Option<char> {
    match m {
        ValueModel::FixInt(n) => if n >= 0 {
            Some((n as u8) as char)
        } else {
            None
        },
        ValueModel::U8(n) => Some(n as char),
        ValueModel::U16(n) => if is_char_code(n as u32) {
            Some(n as char)
        } else {
            None
        },
        ValueModel::U32(n) => if is_char_code(n) {
            Some(n as char)
        } else {
            None
        },
        _ => None,
    }
}

/// `char::from_u32`: the character whose code point is `n`, where `n` is a Unicode
/// scalar value, and none otherwise, as its documentation states.
#[verifier::external_body]
fn char_from_u32(n: u32) -> (r: Option<char>)
    ensures
        r == (if is_char_code(n) {
            Some(n as char)
        } else {
            None
        }),
{
    char::from_u32(n)
}

/// A character from a fixint of at least 0 or a `U8` (read as Latin-1), or from a
/// `U16` or `U32` that is a Unicode scalar value.
pub fn expect_char(v: &Value) -> (r: Result<char, Error>)
    ensures
        r == match char_of(v@) {
            Some(c) => Ok(c),
            None => Err(Error::Mismatch),
        },
{
    match v {
        Value::FixInt(n) => if *n >= 0 {
            Ok((*n as u8) as char)
        } else {
            Err(Error::Mismatch)
        },
        Value::U8(n) => Ok(*n as char),
        Value::U16(n) => match char_from_u32(*n as u32) {
            Some(c) => Ok(c),
            None => Err(Error::Mismatch),
        },
        Value::U32(n) => match char_from_u32(*n) {
            Some(c) => Ok(c),
            None => Err(Error::Mismatch),
        },
        _ => Err(Error::Mismatch),
    }
}

/// `String::from_utf8`: the text whose UTF-8 encoding is `bytes`, taking over the
/// bytes, where they are UTF-8, and none otherwise, as its documentation states.
#[verifier::external_body]
fn string_from_utf8(bytes: Vec<u8>) -> (r: Option<std::string::String>)
    ensures
        r is Some <==> valid_utf8(bytes@),
        r matches Some(t) ==> t@ == decode_utf8(bytes@),
{
    std::string::String::from_utf8(bytes).ok()
}

/// The text of a string value, where its bytes are UTF-8.
pub fn expect_string(v: Value) -> (r: Result<std::string::String, Error>)
    ensures
        match v {
            Value::String(s) => if valid_utf8(s.inner@) {
                r matches Ok(t) && t@ == decode_utf8(s.inner@)
            } else {
                r matches Err(e) && e == Error::Mismatch
            },
            _ => r matches Err(e) && e == Error::Mismatch,
        },
{
    match v {
        Value::String(s) => match string_from_utf8(s.inner) {
            Some(t) => Ok(t),
            None => Err(Error::Mismatch),
        },
        _ => Err(Error::Mismatch),
    }
}

/// How `v` holds an option: with options as variants, a variant holds it (the
/// empty variant is the absent option); otherwise nil is the absent option and
/// any other value is the contents of a present one.
pub open spec fn option_form_of(v: Value, decode_option_as_variant: bool) -> OptionForm {
    match v {
        Value::Variant(x) => if decode_option_as_variant {
            if x.inner is Some {
                OptionForm::InVariant
            } else {
                OptionForm::Absent
            }
        } else {
            OptionForm::Itself
        },
        Value::Nil => if decode_option_as_variant {
            OptionForm::Mismatch
        } else {
            OptionForm::Absent
        },
        _ => if decode_option_as_variant {
            OptionForm::Mismatch
        } else {
            OptionForm::Itself
        },
    }
}

/// How `v` holds an option; see [`option_form_of`].
pub fn option_form(v: &Value, decode_option_as_variant: bool) -> (r: OptionForm)
    ensures
        r == option_form_of(*v, decode_option_as_variant),
{
    match v {
        Value::Variant(x) => if decode_option_as_variant {
            if x.inner.is_some() {
                OptionForm::InVariant
            } else {
                OptionForm::Absent
            }
        } else {
            OptionForm::Itself
        },
        Value::Nil => if decode_option_as_variant {
            OptionForm::Mismatch
        } else {
            OptionForm::Absent
        },
        _ => if decode_option_as_variant {
            OptionForm::Mismatch
        } else {
            OptionForm::Itself
        },
    }
}

/// The index and the value of a variant; the empty variant has index -1 and nil.
pub open spec fn variant_parts_of(v: Value) -> Result<(i64, Value), Error> {
    match v {
        Value::Variant(x) => match x.inner {
            Some((index, b)) => Ok((index, *b)),
            None => Ok((-1i64, Value::Nil)),
        },
        _ => Err(Error::Mismatch),
    }
}

/// The index and the value of a variant; see [`variant_parts_of`].
pub fn variant_parts(v: Value) -> (r: Result<(i64, Value), Error>)
    ensures
        r == variant_parts_of(v),
{
    match v {
        Value::Variant(values::Variant { inner }) => match inner {
            Some((index, b)) => Ok((index, *b)),
            None => Ok((-1, Value::Nil)),
        },
        _ => Err(Error::Mismatch),
    }
}

} // verus!
