//! Building a value step by step from the parts of a data structure: the state
//! and the decisions of a serializer into this format.
use std::collections::VecDeque;

use vstd::prelude::*;

use crate::model::{put_signed, put_unsigned, ValueModel};
use crate::put::PutValue;
use crate::values;
use crate::{model_of, Value};

verus! {

broadcast use crate::group_deque_models;

/// Why a part could not be added.
#[derive(Debug, PartialEq)]
pub enum Error {
    /// The part does not fit the value under construction.
    Mismatch,
    /// The data structure reported an error of its own.
    Other,
}

/// The value of an absent option: the empty variant, or nil.
pub open spec fn none_form(as_variant: bool) -> Value {
    if as_variant {
        Value::Variant(values::Variant { inner: None })
    } else {
        Value::Nil
    }
}

/// The value of a present option holding `inner`: the variant 0 holding `inner`,
/// or `inner` itself.
pub open spec fn some_form(inner: Value, as_variant: bool) -> Value {
    if as_variant {
        Value::Variant(values::Variant { inner: Some((0i64, Box::new(inner))) })
    } else {
        inner
    }
}

/// The value of a variant with one field: the variant with the index, holding
/// the field's value.
pub open spec fn newtype_form(variant_index: u32, inner: Value) -> Value {
    Value::Variant(values::Variant { inner: Some((variant_index as i64, Box::new(inner))) })
}

/// A value under construction, and whether an option becomes a variant
/// (index 0 holding the value, or the empty variant) rather than the value
/// itself or nil.
pub struct Serializer {
    pub value: Value,
    pub encode_option_as_variant: bool,
}

impl Serializer {
    /// Starts with nil.
    pub fn new(encode_option_as_variant: bool) -> (r: Self)
        ensures
            r.value == Value::Nil,
            r.encode_option_as_variant == encode_option_as_variant,
    {
        Self { value: Value::Nil, encode_option_as_variant }
    }

    /// A boolean is the fixint 1 or 0.
    pub fn serialize_bool(&mut self, v: bool)
        ensures
            final(self).value == Value::FixInt(if v { 1i8 } else { 0i8 }),
            final(self).encode_option_as_variant == old(self).encode_option_as_variant,
    {
        self.value = Value::FixInt(if v { 1 } else { 0 });
    }

    /// A signed integer takes its compact form.
    pub fn serialize_i64(&mut self, v: i64)
        ensures
            final(self).value@ == put_signed(v),
            final(self).encode_option_as_variant == old(self).encode_option_as_variant,
    {
        self.value = v.put();
    }

    /// An unsigned integer takes its compact form.
    pub fn serialize_u64(&mut self, v: u64)
        ensures
            final(self).value@ == put_unsigned(v),
            final(self).encode_option_as_variant == old(self).encode_option_as_variant,
    {
        self.value = v.put();
    }

    /// A 32-bit float, given by its bit pattern.
    pub fn serialize_f32(&mut self, bits: u32)
        ensures
            final(self).value == Value::F32(bits),
            final(self).encode_option_as_variant == old(self).encode_option_as_variant,
    {
        self.value = Value::F32(bits);
    }

    /// A 64-bit float, given by its bit pattern.
    pub fn serialize_f64(&mut self, bits: u64)
        ensures
            final(self).value == Value::F64(bits),
            final(self).encode_option_as_variant == old(self).encode_option_as_variant,
    {
        self.value = Value::F64(bits);
    }

    /// A character is the compact form of its code point.
    pub fn serialize_char(&mut self, v: char)
        ensures
            final(self).value@ == put_unsigned(v as u64),
            final(self).encode_option_as_variant == old(self).encode_option_as_variant,
    {
        self.value = (v as u32).put();
    }

    /// Text is a string of its UTF-8 bytes.
    pub fn serialize_str(&mut self, v: &str)
        ensures
            final(self).value@ == ValueModel::String(vstd::utf8::encode_utf8(v@)),
            final(self).encode_option_as_variant == old(self).encode_option_as_variant,
    {
        let inner = vstd::slice::slice_to_vec(v.as_bytes());
        self.value = Value::String(values::String { inner });
    }

    /// Bytes are a byte string.
    pub fn serialize_bytes(&mut self, v: &[u8])
        ensures
            final(self).value@ == ValueModel::Bytes(v@),
            final(self).encode_option_as_variant == old(self).encode_option_as_variant,
    {
        let inner = vstd::slice::slice_to_vec(v);
        self.value = Value::Bytes(values::Bytes { inner });
    }

    /// An absent option is the empty variant, or nil.
    pub fn serialize_none(&mut self)
        ensures
            final(self).value == none_form(old(self).encode_option_as_variant),
            final(self).encode_option_as_variant == old(self).encode_option_as_variant,
    {
        if self.encode_option_as_variant {
            self.value = Value::Variant(values::Variant::new_none());
        } else {
            self.value = Value::Nil;
        }
    }

    /// A present option, whose contents were built as `inner`, is the variant 0
    /// holding `inner`, or `inner` itself.
    pub fn serialize_some(&mut self, inner: Value)
        ensures
            final(self).value == some_form(inner, old(self).encode_option_as_variant),
            final(self).encode_option_as_variant == old(self).encode_option_as_variant,
    {
        if self.encode_option_as_variant {
            self.value = Value::Variant(values::Variant::new_some(inner));
        } else {
            self.value = inner;
        }
    }

    /// The unit is nil.
    pub fn serialize_unit(&mut self)
        ensures
            final(self).value == Value::Nil,
            final(self).encode_option_as_variant == old(self).encode_option_as_variant,
    {
        self.value = Value::Nil;
    }

    /// A variant without data is the compact form of its index, read as an `i32`.
    pub fn serialize_unit_variant(&mut self, variant_index: u32)
        ensures
            final(self).value@ == put_signed((variant_index as i32) as i64),
            final(self).encode_option_as_variant == old(self).encode_option_as_variant,
    {
        let variant = variant_index as i32;
        self.value = variant.put();
    }

    /// A variant with one field, whose value was built as `inner`.
    pub fn serialize_newtype_variant(&mut self, variant_index: u32, inner: Value)
        ensures
            final(self).value == newtype_form(variant_index, inner),
            final(self).encode_option_as_variant == old(self).encode_option_as_variant,
    {
        let index = variant_index as i64;
        self.value = Value::Variant(values::Variant::new_variant(index, inner));
    }

    /// Sequences and tuples start as an empty array.
    pub fn serialize_seq(&mut self)
        ensures
            final(self).value@ == ValueModel::Array(Seq::empty()),
            final(self).encode_option_as_variant == old(self).encode_option_as_variant,
    {
        let a = values::Array { values: VecDeque::new() };
        proof { crate::lemma_deque_values_model(a.values); }
        assert(crate::values_model(a.values@) =~= Seq::<ValueModel>::empty());
        self.value = Value::Array(a);
    }

    /// A variant with tuple fields starts as the variant holding an empty array.
    pub fn serialize_tuple_variant(&mut self, variant_index: u32)
        ensures
            final(self).value@ == ValueModel::Variant(
                Some((variant_index as i64, Box::new(ValueModel::Array(Seq::empty())))),
            ),
            final(self).encode_option_as_variant == old(self).encode_option_as_variant,
    {
        let variant = variant_index as i64;
        let a = values::Array { values: VecDeque::new() };
        proof { crate::lemma_deque_values_model(a.values); }
        assert(crate::values_model(a.values@) =~= Seq::<ValueModel>::empty());
        let empty = Value::Array(a);
        assert(empty@ == ValueModel::Array(Seq::empty()));
        self.value = Value::Variant(values::Variant::new_variant(variant, empty));
    }

    /// A map starts as an empty mapping.
    pub fn serialize_map(&mut self)
        ensures
            final(self).value@ == ValueModel::Mapping(Seq::empty()),
            final(self).encode_option_as_variant == old(self).encode_option_as_variant,
    {
        let m = values::Mapping::new();
        proof { crate::lemma_deque_pairs_model(m.entries); }
        assert(crate::pairs_model(m.entries@) =~= Seq::<(ValueModel, ValueModel)>::empty());
        self.value = Value::Mapping(m);
    }

    /// A struct starts as an empty structure.
    pub fn serialize_struct(&mut self)
        ensures
            final(self).value@ == ValueModel::Structure(Seq::empty()),
            final(self).encode_option_as_variant == old(self).encode_option_as_variant,
    {
        let st = values::Structure::new();
        proof { crate::lemma_deque_values_model(st.values); }
        assert(crate::values_model(st.values@) =~= Seq::<ValueModel>::empty());
        self.value = Value::Structure(st);
    }

    /// A variant with named fields starts as the variant holding an empty structure.
    pub fn serialize_struct_variant(&mut self, variant_index: u32)
        ensures
            final(self).value@ == ValueModel::Variant(
                Some((variant_index as i64, Box::new(ValueModel::Structure(Seq::empty())))),
            ),
            final(self).encode_option_as_variant == old(self).encode_option_as_variant,
    {
        let variant = variant_index as i64;
        let st = values::Structure::new();
        proof { crate::lemma_deque_values_model(st.values); }
        assert(crate::values_model(st.values@) =~= Seq::<ValueModel>::empty());
        let empty = Value::Structure(st);
        assert(empty@ == ValueModel::Structure(Seq::empty()));
        self.value = Value::Variant(values::Variant::new_variant(variant, empty));
    }

    /// Adds an element, built as `element`, to the array under construction.
    pub fn serialize_element(&mut self, element: Value) -> (r: Result<(), Error>)
        ensures
            match old(self).value@ {
                ValueModel::Array(vs) => r is Ok && final(self).value@ == ValueModel::Array(
                    vs.push(element@),
                ),
                _ => r == Err::<(), Error>(Error::Mismatch) && final(self).value == old(
                    self,
                ).value,
            },
            final(self).encode_option_as_variant == old(self).encode_option_as_variant,
    {
        let mut current = Value::Nil;
        core::mem::swap(&mut current, &mut self.value);
        match current {
            Value::Array(mut a) => {
                proof { crate::lemma_deque_values_model(a.values); }
                let ghost before = crate::values_model(a.values@);
                a.values.push_back(element);
                proof { crate::lemma_deque_values_model(a.values); }
                assert(crate::values_model(a.values@) =~= before.push(element@));
                self.value = Value::Array(a);
                Ok(())
            },
            other => {
                self.value = other;
                Err(Error::Mismatch)
            },
        }
    }

    /// Adds a field, built as `field`, to the tuple variant under construction.
    pub fn serialize_tuple_variant_field(&mut self, field: Value) -> (r: Result<(), Error>)
        ensures
            match old(self).value@ {
                ValueModel::Variant(Some((index, inner))) => match *inner {
                    ValueModel::Array(vs) => r is Ok && final(self).value@ == ValueModel::Variant(
                        Some((index, Box::new(ValueModel::Array(vs.push(field@))))),
                    ),
                    _ => r == Err::<(), Error>(Error::Mismatch) && final(self).value == old(
                        self,
                    ).value,
                },
                _ => r == Err::<(), Error>(Error::Mismatch) && final(self).value == old(
                    self,
                ).value,
            },
            final(self).encode_option_as_variant == old(self).encode_option_as_variant,
    {
        proof {
            reveal_with_fuel(crate::model_of, 2);
        }
        let mut current = Value::Nil;
        core::mem::swap(&mut current, &mut self.value);
        match current {
            Value::Variant(values::Variant { inner: Some((index, boxed)) }) => {
                match *boxed {
                    Value::Array(mut a) => {
                        proof { crate::lemma_deque_values_model(a.values); }
                        let ghost before = crate::values_model(a.values@);
                        a.values.push_back(field);
                        proof { crate::lemma_deque_values_model(a.values); }
                        assert(crate::values_model(a.values@) =~= before.push(field@));
                        self.value = Value::Variant(
                            values::Variant { inner: Some((index, Box::new(Value::Array(a)))) },
                        );
                        Ok(())
                    },
                    other => {
                        self.value = Value::Variant(
                            values::Variant { inner: Some((index, Box::new(other))) },
                        );
                        Err(Error::Mismatch)
                    },
                }
            },
            other => {
                self.value = other;
                Err(Error::Mismatch)
            },
        }
    }

    /// Adds a key, built as `key`, to the mapping under construction, with nil as
    /// its value until the value comes.
    pub fn serialize_key(&mut self, key: Value) -> (r: Result<(), Error>)
        ensures
            match old(self).value@ {
                ValueModel::Mapping(ps) => r is Ok && final(self).value@ == ValueModel::Mapping(
                    ps.push((key@, ValueModel::Nil)),
                ),
                _ => r == Err::<(), Error>(Error::Mismatch) && final(self).value == old(
                    self,
                ).value,
            },
            final(self).encode_option_as_variant == old(self).encode_option_as_variant,
    {
        let mut current = Value::Nil;
        core::mem::swap(&mut current, &mut self.value);
        match current {
            Value::Mapping(mut m) => {
                proof { crate::lemma_deque_pairs_model(m.entries); }
                let ghost before = crate::pairs_model(m.entries@);
                m.entries.push_back((key, Value::Nil));
                proof { crate::lemma_deque_pairs_model(m.entries); }
                assert(crate::pairs_model(m.entries@) =~= before.push((key@, ValueModel::Nil)));
                self.value = Value::Mapping(m);
                Ok(())
            },
            other => {
                self.value = other;
                Err(Error::Mismatch)
            },
        }
    }

    /// Sets the value, built as `value`, of the last key of the mapping under
    /// construction.
    pub fn serialize_value(&mut self, value: Value) -> (r: Result<(), Error>)
        ensures
            match old(self).value@ {
                ValueModel::Mapping(ps) => if ps.len() > 0 {
                    r is Ok && final(self).value@ == ValueModel::Mapping(
                        ps.update(ps.len() - 1, (ps.last().0, value@)),
                    )
                } else {
                    r == Err::<(), Error>(Error::Mismatch) && final(self).value == old(
                        self,
                    ).value
                },
                _ => r == Err::<(), Error>(Error::Mismatch) && final(self).value == old(
                    self,
                ).value,
            },
            final(self).encode_option_as_variant == old(self).encode_option_as_variant,
    {
        let mut current = Value::Nil;
        core::mem::swap(&mut current, &mut self.value);
        match current {
            Value::Mapping(mut m) => {
                proof { crate::lemma_deque_pairs_model(m.entries); }
                let ghost before = crate::pairs_model(m.entries@);
                if m.entries.len() == 0 {
                    self.value = Value::Mapping(m);
                    return Err(Error::Mismatch);
                }
                match m.entries.pop_back() {
                    Some((k, _)) => {
                        assert(crate::pairs_model(m.entries@) =~= before.drop_last());
                        assert(model_of(k) == before.last().0);
                        m.entries.push_back((k, value));
                        proof { crate::lemma_deque_pairs_model(m.entries); }
                        assert(crate::pairs_model(m.entries@) =~= before.update(
                            before.len() - 1,
                            (before.last().0, value@),
                        ));
                        self.value = Value::Mapping(m);
                        Ok(())
                    },
                    None => {
                        self.value = Value::Mapping(m);
                        Err(Error::Mismatch)
                    },
                }
            },
            other => {
                self.value = other;
                Err(Error::Mismatch)
            },
        }
    }

    /// Adds a field, built as `field`, to the structure under construction.
    pub fn serialize_field(&mut self, field: Value) -> (r: Result<(), Error>)
        ensures
            match old(self).value@ {
                ValueModel::Structure(vs) => r is Ok && final(self).value@
                    == ValueModel::Structure(vs.push(field@)),
                _ => r == Err::<(), Error>(Error::Mismatch) && final(self).value == old(
                    self,
                ).value,
            },
            final(self).encode_option_as_variant == old(self).encode_option_as_variant,
    {
        let mut current = Value::Nil;
        core::mem::swap(&mut current, &mut self.value);
        match current {
            Value::Structure(mut s) => {
                proof { crate::lemma_deque_values_model(s.values); }
                let ghost before = crate::values_model(s.values@);
                s.values.push_back(field);
                proof { crate::lemma_deque_values_model(s.values); }
                assert(crate::values_model(s.values@) =~= before.push(field@));
                self.value = Value::Structure(s);
                Ok(())
            },
            other => {
                self.value = other;
                Err(Error::Mismatch)
            },
        }
    }

    /// Adds a field, built as `field`, to the struct variant under construction.
    pub fn serialize_struct_variant_field(&mut self, field: Value) -> (r: Result<(), Error>)
        ensures
            match old(self).value@ {
                ValueModel::Variant(Some((index, inner))) => match *inner {
                    ValueModel::Structure(vs) => r is Ok && final(self).value@
                        == ValueModel::Variant(
                        Some((index, Box::new(ValueModel::Structure(vs.push(field@))))),
                    ),
                    _ => r == Err::<(), Error>(Error::Mismatch) && final(self).value == old(
                        self,
                    ).value,
                },
                _ => r == Err::<(), Error>(Error::Mismatch) && final(self).value == old(
                    self,
                ).value,
            },
            final(self).encode_option_as_variant == old(self).encode_option_as_variant,
    {
        proof {
            reveal_with_fuel(crate::model_of, 2);
        }
        let mut current = Value::Nil;
        core::mem::swap(&mut current, &mut self.value);
        match current {
            Value::Variant(values::Variant { inner: Some((index, boxed)) }) => {
                match *boxed {
                    Value::Structure(mut s) => {
                        proof { crate::lemma_deque_values_model(s.values); }
                        let ghost before = crate::values_model(s.values@);
                        s.values.push_back(field);
                        proof { crate::lemma_deque_values_model(s.values); }
                        assert(crate::values_model(s.values@) =~= before.push(field@));
                        self.value = Value::Variant(
                            values::Variant {
                                inner: Some((index, Box::new(Value::Structure(s)))),
                            },
                        );
                        Ok(())
                    },
                    other => {
                        self.value = Value::Variant(
                            values::Variant { inner: Some((index, Box::new(other))) },
                        );
                        Err(Error::Mismatch)
                    },
                }
            },
            other => {
                self.value = other;
                Err(Error::Mismatch)
            },
        }
    }
}

} // verus!
