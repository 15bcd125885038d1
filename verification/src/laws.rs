//! What holds of reading and writing together.
use vstd::bytes::*;
use vstd::prelude::*;

use crate::model::{
    encode, encode_blob, encode_entries, encode_int, encode_pairs, encode_scalar, encode_uint, encode_values,
    int_of, is_scalar, prepend, put_signed, put_unsigned, read_int, read_uint, take_blob, take_entries, take_entry, take_mapping, take_pairs,
    take_value, take_value_list, Outcome, ValueModel,
};
use crate::de::{
    is_char_code, char_of, option_form_of, signed_within, unsigned_within, variant_parts_of, OptionForm,
};
use crate::put::lemma_le_lengths;
use crate::ser::{newtype_form, none_form, some_form};
use crate::Value;
use vstd::utf8::{decode_utf8, encode_utf8, encode_utf8_decode_utf8, encode_utf8_valid_utf8, valid_utf8};

verus! {

broadcast use crate::group_deque_models;

/// The little-endian forms read back what they hold.
proof fn lemma_le_roundtrip()
    ensures
        forall|x: u16| #[trigger] spec_u16_from_le_bytes(spec_u16_to_le_bytes(x)) == x,
        forall|x: u32| #[trigger] spec_u32_from_le_bytes(spec_u32_to_le_bytes(x)) == x,
        forall|x: u64| #[trigger] spec_u64_from_le_bytes(spec_u64_to_le_bytes(x)) == x,
{
    lemma_auto_spec_u16_to_from_le_bytes();
    lemma_auto_spec_u32_to_from_le_bytes();
    lemma_auto_spec_u64_to_from_le_bytes();
    assert forall|x: u16| #[trigger] spec_u16_from_le_bytes(spec_u16_to_le_bytes(x)) == x by {
        assert(spec_u16_to_le_bytes(x).len() == 2);
    }
    assert forall|x: u32| #[trigger] spec_u32_from_le_bytes(spec_u32_to_le_bytes(x)) == x by {
        assert(spec_u32_to_le_bytes(x).len() == 4);
    }
    assert forall|x: u64| #[trigger] spec_u64_from_le_bytes(spec_u64_to_le_bytes(x)) == x by {
        assert(spec_u64_to_le_bytes(x).len() == 8);
    }
}

/// An unsigned integer written in its compact form, behind any byte `p`, reads back
/// as itself, and the reader uses exactly its encoding.
pub proof fn law_uint_roundtrip(p: u8, n: u64, rest: Seq<u8>)
    ensures
        read_uint(seq![p] + encode_uint(n) + rest) == Outcome::Done(encode_uint(n).len(), n),
{
    lemma_le_lengths();
    lemma_le_roundtrip();
    let e = encode_uint(n);
    let s = seq![p] + e + rest;
    if n <= 127 {
        assert(s[1] == n as u8);
    } else if n <= 0xff {
        assert(s[1] == 0x80u8 && s[2] == n as u8);
    } else if n <= 0xffff {
        assert(s.subrange(2, 4) =~= spec_u16_to_le_bytes(n as u16));
        assert(s[1] == 0x81u8);
    } else if n <= 0xffff_ffff {
        assert(s.subrange(2, 6) =~= spec_u32_to_le_bytes(n as u32));
        assert(s[1] == 0x82u8);
    } else {
        assert(s.subrange(2, 10) =~= spec_u64_to_le_bytes(n));
        assert(s[1] == 0x83u8);
    }
}

/// A signed integer written in its compact form, behind any byte `p`, reads back
/// as itself, and the reader uses exactly its encoding.
pub proof fn law_int_roundtrip(p: u8, k: i64, rest: Seq<u8>)
    ensures
        read_int(seq![p] + encode_int(k) + rest) == Outcome::Done(encode_int(k).len(), k),
{
    lemma_le_lengths();
    lemma_le_roundtrip();
    let e = encode_int(k);
    let s = seq![p] + e + rest;
    if -64 <= k <= 127 {
        let b = (k as i8) as u8;
        assert(s[1] == b);
        assert((b <= 0x7f || b >= 0xc0) && (b as i8) as i64 == k) by (bit_vector)
            requires
                -64 <= k <= 127,
                b == (k as i8) as u8,
        ;
    } else if -128 <= k <= 127 {
        let b = (k as i8) as u8;
        assert(s[1] == 0x84u8 && s[2] == b);
        assert((b as i8) as i64 == k) by (bit_vector)
            requires
                -128 <= k <= 127,
                b == (k as i8) as u8,
        ;
    } else if -0x8000 <= k <= 0x7fff {
        let x = (k as i16) as u16;
        assert(s.subrange(2, 4) =~= spec_u16_to_le_bytes(x));
        assert(s[1] == 0x85u8);
        assert((x as i16) as i64 == k) by (bit_vector)
            requires
                -0x8000 <= k <= 0x7fff,
                x == (k as i16) as u16,
        ;
    } else if -0x8000_0000 <= k <= 0x7fff_ffff {
        let x = (k as i32) as u32;
        assert(s.subrange(2, 6) =~= spec_u32_to_le_bytes(x));
        assert(s[1] == 0x86u8);
        assert((x as i32) as i64 == k) by (bit_vector)
            requires
                -0x8000_0000 <= k <= 0x7fff_ffff,
                x == (k as i32) as u32,
        ;
    } else {
        let x = k as u64;
        assert(s.subrange(2, 10) =~= spec_u64_to_le_bytes(x));
        assert(s[1] == 0x87u8);
        assert(x as i64 == k) by (bit_vector)
            requires
                x == k as u64,
        ;
    }
}

/// The compact form of a signed integer denotes that integer.
pub proof fn law_put_signed_keeps_value(k: i64)
    ensures
        int_of(put_signed(k)) == k,
{
}

/// The compact form of an unsigned integer denotes that integer.
pub proof fn law_put_unsigned_keeps_value(n: u64)
    ensures
        int_of(put_unsigned(n)) == n,
{
}

/// A signed integer that the serializer turns into a value, the deserializer of
/// every signed width that holds the integer takes back.
pub proof fn law_signed_reads_back(k: i64, bits: nat)
    requires
        (bits == 8 && -0x80 <= k <= 0x7f) || (bits == 16 && -0x8000 <= k <= 0x7fff) || (bits
            == 32 && -0x8000_0000 <= k <= 0x7fff_ffff) || bits == 64,
    ensures
        signed_within(put_signed(k), bits) == Some(k as int),
{
}

/// An unsigned integer that the serializer turns into a value, the deserializer of
/// every unsigned width that holds the integer takes back.
pub proof fn law_unsigned_reads_back(n: u64, bits: nat)
    requires
        (bits == 8 && n <= 0xff) || (bits == 16 && n <= 0xffff) || (bits == 32 && n
            <= 0xffff_ffff) || bits == 64,
    ensures
        unsigned_within(put_unsigned(n), bits) == Some(n as int),
{
}

/// A character that the serializer turns into a value, the deserializer takes back.
pub proof fn law_char_reads_back(c: char)
    ensures
        char_of(put_unsigned(c as u64)) == Some(c),
{
}

/// A signed read gives exactly the integer that the value denotes: only fixints
/// and signed integers are read, each where its kind is at most as wide as the
/// width read, so the integer is always within that width.
pub proof fn law_signed_read_keeps_value(m: ValueModel, bits: nat)
    requires
        bits == 8 || bits == 16 || bits == 32 || bits == 64,
    ensures
        signed_within(m, bits) matches Some(x) ==> {
            &&& x == int_of(m)
            &&& bits == 8 ==> -0x80 <= x <= 0x7f
            &&& bits == 16 ==> -0x8000 <= x <= 0x7fff
            &&& bits == 32 ==> -0x8000_0000 <= x <= 0x7fff_ffff
            &&& bits == 64 ==> -0x8000_0000_0000_0000 <= x <= 0x7fff_ffff_ffff_ffff
        },
        signed_within(m, bits) is Some ==> (m is FixInt || m is I8 || m is I16 || m is I32
            || m is I64),
        (m is FixInt || m is I8) ==> signed_within(m, bits) is Some,
        m is I16 ==> (signed_within(m, bits) is Some <==> 16 <= bits),
        m is I32 ==> (signed_within(m, bits) is Some <==> 32 <= bits),
        m is I64 ==> (signed_within(m, bits) is Some <==> 64 <= bits),
{
}

/// An unsigned read gives exactly the integer that the value denotes: only fixints
/// of at least 0 and unsigned integers are read, each where its kind is at most as
/// wide as the width read, so a negative value never reads as an unsigned one.
pub proof fn law_unsigned_read_keeps_value(m: ValueModel, bits: nat)
    requires
        bits == 8 || bits == 16 || bits == 32 || bits == 64,
    ensures
        unsigned_within(m, bits) matches Some(x) ==> {
            &&& x == int_of(m)
            &&& 0 <= x
            &&& bits == 8 ==> x <= 0xff
            &&& bits == 16 ==> x <= 0xffff
            &&& bits == 32 ==> x <= 0xffff_ffff
            &&& bits == 64 ==> x <= 0xffff_ffff_ffff_ffff
        },
        unsigned_within(m, bits) is Some ==> (m is FixInt || m is U8 || m is U16 || m is U32
            || m is U64),
        m is FixInt ==> (unsigned_within(m, bits) is Some <==> int_of(m) >= 0),
        m is U8 ==> unsigned_within(m, bits) is Some,
        m is U16 ==> (unsigned_within(m, bits) is Some <==> 16 <= bits),
        m is U32 ==> (unsigned_within(m, bits) is Some <==> 32 <= bits),
        m is U64 ==> (unsigned_within(m, bits) is Some <==> 64 <= bits),
{
}

/// A character is read only from a fixint or an unsigned integer of at most 32
/// bits that denotes its code point, and from every such value whose integer is a
/// Unicode scalar value.
pub proof fn law_char_read_keeps_code(m: ValueModel)
    ensures
        char_of(m) matches Some(c) ==> int_of(m) == c as int,
        char_of(m) is Some ==> (m is FixInt || m is U8 || m is U16 || m is U32),
        ((m is FixInt && int_of(m) >= 0) || m is U8 || ((m is U16 || m is U32) && is_char_code(
            int_of(m) as u32,
        ))) ==> char_of(m) is Some,
{
    match m {
        ValueModel::FixInt(n) => {
            if n >= 0 {
                let c = (n as u8) as char;
                assert(c as int == n as int) by {
                    vstd::utf8::char_u32_cast(c, n as u8 as u32);
                }
            }
        },
        ValueModel::U8(n) => {
            assert((n as char) as int == n as int) by {
                vstd::utf8::char_u32_cast(n as char, n as u32);
            }
        },
        ValueModel::U16(n) => {
            if is_char_code(n as u32) {
                assert((n as char) as int == n as int) by {
                    vstd::utf8::char_u32_cast(n as char, n as u32);
                }
            }
        },
        ValueModel::U32(n) => {
            if is_char_code(n) {
                assert((n as char) as int == n as int) by {
                    vstd::utf8::char_u32_cast(n as char, n);
                }
            }
        },
        _ => {},
    }
}

/// The code points that a character is read from are exactly the Unicode scalar
/// values, those that UTF-8 can encode and that every `char` holds.
pub proof fn law_char_codes_are_scalars(n: u32, c: char)
    ensures
        is_char_code(n) <==> vstd::utf8::is_scalar(n),
        is_char_code(c as u32),
{
    vstd::utf8::char_is_scalar(c);
}

/// With options as variants, only a variant holds an option (the empty variant
/// the absent one); otherwise nil is the absent option and every other value is
/// the contents of a present one.
pub proof fn law_option_form_by_kind(v: Value, as_variant: bool)
    ensures
        as_variant ==> (option_form_of(v, true) == OptionForm::Mismatch <==> !(v is Variant)),
        as_variant ==> (option_form_of(v, true) == OptionForm::Absent <==> (v matches Value::Variant(x)
            && x.inner is None)),
        as_variant ==> (option_form_of(v, true) == OptionForm::InVariant <==> (v matches Value::Variant(
            x,
        ) && x.inner is Some)),
        !as_variant ==> (option_form_of(v, false) == OptionForm::Absent <==> v is Nil),
        !as_variant ==> (option_form_of(v, false) == OptionForm::Itself <==> !(v is Nil)),
{
}

/// Whether `v` is the integer `x` in the kind with tag `tag`, `width` bytes wide,
/// and is read back from its encoding whatever follows.
pub open spec fn holds_integer(v: Value, tag: u8, width: nat, x: int) -> bool {
    &&& encode(v@).len() == 1 + width
    &&& encode(v@)[0] == tag
    &&& int_of(v@) == x
    &&& forall|rest: Seq<u8>| #[trigger]
        take_value(encode(v@) + rest) == Outcome::Done(encode(v@).len(), v@)
}

proof fn lemma_holds_integer(v: Value, tag: u8, width: nat, x: int)
    requires
        is_scalar(v@),
        !(v@ is FixInt),
        !(v@ is Nil),
        encode(v@).len() == 1 + width,
        encode(v@)[0] == tag,
        int_of(v@) == x,
    ensures
        holds_integer(v, tag, width, x),
{
    assert forall|rest: Seq<u8>| #[trigger]
        take_value(encode(v@) + rest) == Outcome::Done(encode(v@).len(), v@) by {
        law_roundtrip(v@, rest);
    }
}

/// The value built from an `i8` is an `I8` holding it, read back from its encoding.
pub proof fn law_from_i8(x: i8)
    ensures
        <Value as vstd::std_specs::convert::FromSpec<i8>>::obeys_from_spec(),
        holds_integer(<Value as vstd::std_specs::convert::FromSpec<i8>>::from_spec(x), 0x84, 1, x as int),
{
    lemma_holds_integer(<Value as vstd::std_specs::convert::FromSpec<i8>>::from_spec(x), 0x84, 1, x as int);
}

/// The value built from an `i16` is an `I16` holding it, read back from its encoding.
pub proof fn law_from_i16(x: i16)
    ensures
        <Value as vstd::std_specs::convert::FromSpec<i16>>::obeys_from_spec(),
        holds_integer(<Value as vstd::std_specs::convert::FromSpec<i16>>::from_spec(x), 0x85, 2, x as int),
{
    lemma_le_lengths();
    lemma_holds_integer(<Value as vstd::std_specs::convert::FromSpec<i16>>::from_spec(x), 0x85, 2, x as int);
}

/// The value built from an `i32` is an `I32` holding it, read back from its encoding.
pub proof fn law_from_i32(x: i32)
    ensures
        <Value as vstd::std_specs::convert::FromSpec<i32>>::obeys_from_spec(),
        holds_integer(<Value as vstd::std_specs::convert::FromSpec<i32>>::from_spec(x), 0x86, 4, x as int),
{
    lemma_le_lengths();
    lemma_holds_integer(<Value as vstd::std_specs::convert::FromSpec<i32>>::from_spec(x), 0x86, 4, x as int);
}

/// The value built from an `i64` is an `I64` holding it, read back from its encoding.
pub proof fn law_from_i64(x: i64)
    ensures
        <Value as vstd::std_specs::convert::FromSpec<i64>>::obeys_from_spec(),
        holds_integer(<Value as vstd::std_specs::convert::FromSpec<i64>>::from_spec(x), 0x87, 8, x as int),
{
    lemma_le_lengths();
    lemma_holds_integer(<Value as vstd::std_specs::convert::FromSpec<i64>>::from_spec(x), 0x87, 8, x as int);
}

/// The value built from a `u8` is a `U8` holding it, read back from its encoding.
pub proof fn law_from_u8(x: u8)
    ensures
        <Value as vstd::std_specs::convert::FromSpec<u8>>::obeys_from_spec(),
        holds_integer(<Value as vstd::std_specs::convert::FromSpec<u8>>::from_spec(x), 0x80, 1, x as int),
{
    lemma_holds_integer(<Value as vstd::std_specs::convert::FromSpec<u8>>::from_spec(x), 0x80, 1, x as int);
}

/// The value built from a `u16` is a `U16` holding it, read back from its encoding.
pub proof fn law_from_u16(x: u16)
    ensures
        <Value as vstd::std_specs::convert::FromSpec<u16>>::obeys_from_spec(),
        holds_integer(<Value as vstd::std_specs::convert::FromSpec<u16>>::from_spec(x), 0x81, 2, x as int),
{
    lemma_le_lengths();
    lemma_holds_integer(<Value as vstd::std_specs::convert::FromSpec<u16>>::from_spec(x), 0x81, 2, x as int);
}

/// The value built from a `u32` is a `U32` holding it, read back from its encoding.
pub proof fn law_from_u32(x: u32)
    ensures
        <Value as vstd::std_specs::convert::FromSpec<u32>>::obeys_from_spec(),
        holds_integer(<Value as vstd::std_specs::convert::FromSpec<u32>>::from_spec(x), 0x82, 4, x as int),
{
    lemma_le_lengths();
    lemma_holds_integer(<Value as vstd::std_specs::convert::FromSpec<u32>>::from_spec(x), 0x82, 4, x as int);
}

/// The value built from a `u64` is a `U64` holding it, read back from its encoding.
pub proof fn law_from_u64(x: u64)
    ensures
        <Value as vstd::std_specs::convert::FromSpec<u64>>::obeys_from_spec(),
        holds_integer(<Value as vstd::std_specs::convert::FromSpec<u64>>::from_spec(x), 0x83, 8, x as int),
{
    lemma_le_lengths();
    lemma_holds_integer(<Value as vstd::std_specs::convert::FromSpec<u64>>::from_spec(x), 0x83, 8, x as int);
}

/// Text that the serializer turns into a string value is UTF-8, and the
/// deserializer takes the same text back.
pub proof fn law_text_reads_back(text: Seq<char>)
    ensures
        valid_utf8(encode_utf8(text)),
        decode_utf8(encode_utf8(text)) == text,
{
    encode_utf8_valid_utf8(text);
    encode_utf8_decode_utf8(text);
}

/// An absent option that the serializer writes, the deserializer takes back as
/// absent.
pub proof fn law_absent_option_reads_back(as_variant: bool)
    ensures
        option_form_of(none_form(as_variant), as_variant) == OptionForm::Absent,
{
}

/// A present option that the serializer writes, the deserializer takes back as
/// present, with the same contents: those the variant holds, or the value itself.
/// Without variants, a present option holding nil is nil, which reads as absent.
pub proof fn law_present_option_reads_back(inner: Value, as_variant: bool)
    requires
        as_variant || !(inner is Nil),
    ensures
        as_variant ==> option_form_of(some_form(inner, as_variant), as_variant)
            == OptionForm::InVariant && variant_parts_of(some_form(inner, as_variant)) == Ok::<
            (i64, Value),
            crate::de::Error,
        >((0i64, inner)),
        !as_variant ==> option_form_of(some_form(inner, as_variant), as_variant)
            == OptionForm::Itself && some_form(inner, as_variant) == inner,
{
}

/// A variant with one field that the serializer writes, the deserializer takes
/// apart into the same index and the same value.
pub proof fn law_variant_reads_back(variant_index: u32, inner: Value)
    ensures
        variant_parts_of(newtype_form(variant_index, inner)) == Ok::<
            (i64, Value),
            crate::de::Error,
        >((variant_index as i64, inner)),
{
}

/// The index of a variant, which the deserializer hands on in its compact signed
/// form, is read back as an unsigned integer where it is a fixint: up to 127.
pub proof fn law_variant_index_reads_back(variant_index: u32)
    requires
        variant_index <= 0x7f,
    ensures
        unsigned_within(put_signed(variant_index as i64), 64) == Some(variant_index as int),
{
}

/// The bytes from which the reader of a table entry takes the entry's value: the
/// last byte of the entry's length field, then all but the last byte of the value's
/// encoding.
pub open spec fn entry_window(v: ValueModel) -> Seq<u8> {
    let e = encode(v);
    seq![encode_uint(e.len() as u64).last()] + e.take(e.len() - 1)
}

/// Whether the reader of a table entry takes its value `v` back from the entry window.
#[verifier::opaque]
pub open spec fn entry_reads_back(v: ValueModel) -> bool {
    &&& encode(v).len() <= u64::MAX
    &&& take_value(entry_window(v)) matches Outcome::Done(_, w) && w == v
}

/// Whether every byte of `e` is `b`.
pub open spec fn all_bytes(e: Seq<u8>, b: u8) -> bool {
    forall|j: int| 0 <= j < e.len() ==> #[trigger] e[j] == b
}

/// `k` copies of `e`, one after the other.
pub open spec fn repeat(e: Seq<u8>, k: nat) -> Seq<u8>
    decreases k,
{
    if k == 0 {
        seq![]
    } else {
        repeat(e, (k - 1) as nat) + e
    }
}

/// The values that the readers read back from their own encoding, whatever bytes
/// follow: every kind but errors and handles, with fixints of at least -64,
/// variants with an index of at least 0, tables whose entry values are read back
/// from their entry windows (the fixint 1 is), mappings that are empty or whose
/// keys and values are all one value `x` that reads back and whose encoding repeats
/// the last byte of the pair count (the pairs are read from that byte on), and
/// every length within the 64-bit length fields.
pub open spec fn reads_back(m: ValueModel) -> bool
    decreases m,
{
    match m {
        ValueModel::FixInt(n) => n >= -64,
        ValueModel::Table { hash, entries } => entries.len() <= u64::MAX && forall|i: int|
            0 <= i < entries.len() ==> entry_reads_back((#[trigger] entries[i]).1),
        ValueModel::Error(_) => false,
        ValueModel::Handle { .. } => false,
        ValueModel::Variant(inner) => match inner {
            Some((index, v)) => index >= 0 && reads_back(*v),
            None => true,
        },
        ValueModel::Structure(vs) => vs.len() <= u64::MAX && forall|i: int|
            0 <= i < vs.len() ==> reads_back(#[trigger] vs[i]),
        ValueModel::Array(vs) => vs.len() <= u64::MAX && forall|i: int|
            0 <= i < vs.len() ==> reads_back(#[trigger] vs[i]),
        ValueModel::Mapping(ps) => ps.len() <= u64::MAX && (ps.len() == 0 || {
            let x = ps[0].0;
            &&& reads_back(x)
            &&& forall|i: int| 0 <= i < ps.len() ==> #[trigger] ps[i] == (x, x)
            &&& all_bytes(encode(x), encode_uint(ps.len() as u64).last())
        }),
        ValueModel::Bytes(b) => b.len() <= u64::MAX,
        ValueModel::String(b) => b.len() <= u64::MAX,
        _ => true,
    }
}

/// The encoding of a value list is the first value's, then the rest's.
proof fn lemma_values_front(s: Seq<ValueModel>)
    requires
        s.len() > 0,
    ensures
        encode_values(s) == encode(s[0]) + encode_values(s.drop_first()),
    decreases s.len(),
{
    if s.len() == 1 {
        assert(s.drop_last() =~= Seq::<ValueModel>::empty());
        assert(s.drop_first() =~= Seq::<ValueModel>::empty());
        assert(encode_values(s) =~= encode(s[0]) + encode_values(s.drop_first()));
    } else {
        lemma_values_front(s.drop_last());
        assert(s.drop_first().drop_last() =~= s.drop_last().drop_first());
        assert(s.drop_first().last() == s.last());
        assert(encode_values(s) =~= encode(s[0]) + encode_values(s.drop_first()));
    }
}

/// The encoding of an entry list is the first entry's, then the rest's.
proof fn lemma_entries_front(s: Seq<(u64, ValueModel)>)
    requires
        s.len() > 0,
    ensures
        encode_entries(s) == encode_uint(s[0].0) + encode_uint(encode(s[0].1).len() as u64)
            + encode(s[0].1) + encode_entries(s.drop_first()),
    decreases s.len(),
{
    if s.len() == 1 {
        assert(s.drop_last() =~= Seq::<(u64, ValueModel)>::empty());
        assert(s.drop_first() =~= Seq::<(u64, ValueModel)>::empty());
        assert(encode_entries(s) =~= encode_uint(s[0].0) + encode_uint(
            encode(s[0].1).len() as u64,
        ) + encode(s[0].1) + encode_entries(s.drop_first()));
    } else {
        lemma_entries_front(s.drop_last());
        assert(s.drop_first().drop_last() =~= s.drop_last().drop_first());
        assert(s.drop_first().last() == s.last());
        assert(encode_entries(s) =~= encode_uint(s[0].0) + encode_uint(
            encode(s[0].1).len() as u64,
        ) + encode(s[0].1) + encode_entries(s.drop_first()));
    }
}

/// A scalar that reads back is read back from its encoding.
proof fn lemma_scalar_roundtrip(m: ValueModel, rest: Seq<u8>)
    requires
        is_scalar(m),
        reads_back(m),
    ensures
        take_value(encode(m) + rest) == Outcome::Done(encode(m).len(), m),
{
    lemma_le_lengths();
    lemma_le_roundtrip();
    let s = encode(m) + rest;
    assert(encode(m) == encode_scalar(m));
    match m {
        ValueModel::FixInt(n) => {
            let b = n as u8;
            assert(s[0] == b);
            assert((b <= 0x7f || b >= 0xc0) && b as i8 == n) by (bit_vector)
                requires
                    n >= -64,
                    b == n as u8,
            ;
        },
        ValueModel::U8(x) => {
            assert(s[0] == 0x80u8 && s[1] == x);
        },
        ValueModel::U16(x) => {
            assert(s[0] == 0x81u8);
            assert(s.subrange(1, 3) =~= spec_u16_to_le_bytes(x));
        },
        ValueModel::U32(x) => {
            assert(s[0] == 0x82u8);
            assert(s.subrange(1, 5) =~= spec_u32_to_le_bytes(x));
        },
        ValueModel::U64(x) => {
            assert(s[0] == 0x83u8);
            assert(s.subrange(1, 9) =~= spec_u64_to_le_bytes(x));
        },
        ValueModel::I8(x) => {
            let b = x as u8;
            assert(s[0] == 0x84u8 && s[1] == b);
            assert(b as i8 == x) by (bit_vector)
                requires
                    b == x as u8,
            ;
        },
        ValueModel::I16(x) => {
            let y = x as u16;
            assert(s[0] == 0x85u8);
            assert(s.subrange(1, 3) =~= spec_u16_to_le_bytes(y));
            assert(y as i16 == x) by (bit_vector)
                requires
                    y == x as u16,
            ;
        },
        ValueModel::I32(x) => {
            let y = x as u32;
            assert(s[0] == 0x86u8);
            assert(s.subrange(1, 5) =~= spec_u32_to_le_bytes(y));
            assert(y as i32 == x) by (bit_vector)
                requires
                    y == x as u32,
            ;
        },
        ValueModel::I64(x) => {
            let y = x as u64;
            assert(s[0] == 0x87u8);
            assert(s.subrange(1, 9) =~= spec_u64_to_le_bytes(y));
            assert(y as i64 == x) by (bit_vector)
                requires
                    y == x as u64,
            ;
        },
        ValueModel::F32(x) => {
            assert(s[0] == 0x88u8);
            assert(s.subrange(1, 5) =~= spec_u32_to_le_bytes(x));
        },
        ValueModel::F64(x) => {
            assert(s[0] == 0x89u8);
            assert(s.subrange(1, 9) =~= spec_u64_to_le_bytes(x));
        },
        _ => {
            assert(s[0] == 0xbeu8);
        },
    }
}

/// A byte string written behind any byte `t`, its length first, is read back
/// whole, whatever bytes follow, and the reader uses exactly the bytes written.
pub proof fn law_blob_roundtrip(t: u8, d: Seq<u8>, rest: Seq<u8>)
    requires
        d.len() <= u64::MAX,
    ensures
        take_blob(seq![t] + encode_blob(d) + rest) == Outcome::Done(encode_blob(d).len(), d),
        take_blob(seq![t] + encode_blob(d)) == Outcome::Done(encode_blob(d).len(), d),
{
    let e = encode_uint(d.len() as u64);
    let s = seq![t] + encode_blob(d) + rest;
    assert(s =~= seq![t] + e + (d + rest));
    law_uint_roundtrip(t, d.len() as u64, d + rest);
    assert(s.subrange(e.len() + 1 as int, e.len() + 1 + d.len() as int) =~= d);
    let s0 = seq![t] + encode_blob(d);
    assert(s0 =~= seq![t] + e + (d + Seq::<u8>::empty()));
    law_uint_roundtrip(t, d.len() as u64, d + Seq::<u8>::empty());
    assert(s0.subrange(e.len() + 1 as int, e.len() + 1 + d.len() as int) =~= d);
}

/// A list of values that read back is read back from its encoding.
proof fn lemma_list_roundtrip(ms: Seq<ValueModel>, rest: Seq<u8>)
    requires
        forall|i: int| 0 <= i < ms.len() ==> reads_back(#[trigger] ms[i]),
    ensures
        take_value_list(encode_values(ms) + rest, ms.len()) == Outcome::Done(
            encode_values(ms).len(),
            ms,
        ),
    decreases ms,
{
    if ms.len() == 0 {
        assert(ms =~= Seq::<ValueModel>::empty());
    } else {
        let tail = ms.drop_first();
        lemma_values_front(ms);
        let s = encode_values(ms) + rest;
        let e0 = encode(ms[0]);
        assert(s =~= e0 + (encode_values(tail) + rest));
        law_roundtrip(ms[0], encode_values(tail) + rest);
        assert(s.subrange(e0.len() as int, s.len() as int) =~= encode_values(tail) + rest);
        assert forall|i: int| 0 <= i < tail.len() implies reads_back(#[trigger] tail[i]) by {
            assert(tail[i] == ms[i + 1]);
        }
        lemma_list_roundtrip(tail, rest);
        assert(seq![ms[0]] + tail =~= ms);
    }
}

/// What `entry_reads_back` says of `v`, with the number of bytes the reader uses.
proof fn lemma_entry_window(v: ValueModel) -> (n: nat)
    requires
        entry_reads_back(v),
    ensures
        encode(v).len() <= u64::MAX,
        take_value(entry_window(v)) == Outcome::Done(n, v),
{
    reveal(entry_reads_back);
    match take_value(entry_window(v)) {
        Outcome::Done(n, _) => n,
        _ => 0,
    }
}

/// Every encoding has at least one byte.
proof fn lemma_encode_nonempty(m: ValueModel)
    ensures
        encode(m).len() >= 1,
{
    lemma_le_lengths();
}

/// One table entry whose value is read back from its entry window is read back from
/// its encoding behind any byte `p`.
#[verifier::spinoff_prover]
proof fn lemma_entry_roundtrip(p: u8, id: u64, v: ValueModel, more: Seq<u8>)
    requires
        entry_reads_back(v),
    ensures
        take_entry(seq![p] + encode_uint(id) + encode_uint(encode(v).len() as u64) + encode(v)
            + more) == Outcome::Done(
            encode_uint(id).len() + encode_uint(encode(v).len() as u64).len() + encode(v).len(),
            (id, v),
        ),
{
    let k = lemma_entry_window(v);
    lemma_encode_nonempty(v);
    let e = encode(v);
    let len = e.len();
    let eid = encode_uint(id);
    let elen = encode_uint(len as u64);
    let r = seq![p] + eid + elen + e + more;
    assert(r =~= seq![p] + eid + (elen + e + more));
    law_uint_roundtrip(p, id, elen + e + more);
    let a = eid.len();
    let c = r.subrange(a as int, r.len() as int);
    assert(c =~= seq![eid.last()] + elen + (e + more));
    law_uint_roundtrip(eid.last(), len as u64, e + more);
    let d = elen.len();
    let window = c.subrange(d as int, d + len as int);
    assert(window =~= entry_window(v));
}

/// A list of table entries, each of whose values is read back from its entry
/// window, is read back from its encoding behind any byte `p`.
#[verifier::rlimit(60)]
#[verifier::spinoff_prover]
proof fn lemma_entries_roundtrip(p: u8, es: Seq<(u64, ValueModel)>, rest: Seq<u8>)
    requires
        forall|i: int| 0 <= i < es.len() ==> entry_reads_back((#[trigger] es[i]).1),
    ensures
        take_entries(seq![p] + encode_entries(es) + rest, es.len()) == Outcome::Done(
            encode_entries(es).len(),
            es,
        ),
    decreases es.len(),
{
    if es.len() == 0 {
        assert(es =~= Seq::<(u64, ValueModel)>::empty());
    } else {
        let tail = es.drop_first();
        let (id, v) = es[0];
        assert(entry_reads_back(es[0].1));
        lemma_entries_front(es);
        lemma_encode_nonempty(v);
        let e = encode(v);
        let head = encode_uint(id) + encode_uint(e.len() as u64) + e;
        let r = seq![p] + encode_entries(es) + rest;
        let more = encode_entries(tail) + rest;
        assert(r =~= seq![p] + encode_uint(id) + encode_uint(e.len() as u64) + e + more);
        lemma_entry_roundtrip(p, id, v, more);
        let n = head.len();
        assert(r.subrange(n as int, r.len() as int) =~= seq![e.last()] + encode_entries(tail)
            + rest);
        assert forall|i: int| 0 <= i < tail.len() implies entry_reads_back(
            (#[trigger] tail[i]).1,
        ) by {
            assert(tail[i] == es[i + 1]);
        }
        lemma_entries_roundtrip(e.last(), tail, rest);
        let r2 = r.subrange(n as int, r.len() as int);
        assert(take_entry(r) == Outcome::Done(n, es[0]));
        assert(take_entries(r2, tail.len()) == Outcome::Done(encode_entries(tail).len(), tail));
        assert(take_entries(r, es.len()) == prepend(n, es[0], take_entries(r2, tail.len())));
        assert(seq![es[0]] + tail =~= es);
    }
}

/// A table whose entry values are read back from their entry windows is read back
/// from its encoding.
proof fn lemma_table_roundtrip(hash: u64, entries: Seq<(u64, ValueModel)>, rest: Seq<u8>)
    requires
        reads_back(ValueModel::Table { hash, entries }),
    ensures
        take_value(encode(ValueModel::Table { hash, entries }) + rest) == Outcome::Done(
            encode(ValueModel::Table { hash, entries }).len(),
            ValueModel::Table { hash, entries },
        ),
{
    let m = ValueModel::Table { hash, entries };
    let s = encode(m) + rest;
    let eh = encode_uint(hash);
    let ec = encode_uint(entries.len() as u64);
    let ee = encode_entries(entries);
    assert(s =~= seq![0xb5u8] + eh + (ec + ee + rest));
    law_uint_roundtrip(0xb5, hash, ec + ee + rest);
    let s1 = s.subrange(eh.len() as int, s.len() as int);
    assert(s1 =~= seq![eh.last()] + ec + (ee + rest));
    law_uint_roundtrip(eh.last(), entries.len() as u64, ee + rest);
    let s2 = s1.subrange(ec.len() as int, s1.len() as int);
    assert(s2 =~= seq![ec.last()] + ee + rest);
    lemma_entries_roundtrip(ec.last(), entries, rest);
}

/// One more copy in front.
proof fn lemma_repeat_front(e: Seq<u8>, k: nat)
    ensures
        repeat(e, k + 1) == e + repeat(e, k),
    decreases k,
{
    if k == 0 {
        assert(repeat(e, 1) =~= e + repeat(e, 0));
    } else {
        lemma_repeat_front(e, (k - 1) as nat);
        assert(repeat(e, k + 1) =~= e + repeat(e, k));
    }
}

/// Copies of a run of one byte are a run of that byte.
proof fn lemma_repeat_all(e: Seq<u8>, k: nat, b: u8)
    requires
        all_bytes(e, b),
    ensures
        all_bytes(repeat(e, k), b),
        repeat(e, k).len() == k * e.len(),
    decreases k,
{
    if k == 0 {
        assert(k * e.len() == 0) by (nonlinear_arith)
            requires
                k == 0,
        ;
    } else {
        lemma_repeat_all(e, (k - 1) as nat, b);
        let r = repeat(e, (k - 1) as nat);
        assert forall|j: int| 0 <= j < repeat(e, k).len() implies #[trigger] repeat(e, k)[j]
            == b by {
            if j < r.len() {
                assert(repeat(e, k)[j] == r[j]);
            } else {
                assert(repeat(e, k)[j] == e[j - r.len()]);
            }
        }
        let k1 = (k - 1) as nat;
        assert(repeat(e, k).len() == r.len() + e.len());
        assert(k * e.len() == k1 * e.len() + e.len()) by (nonlinear_arith)
            requires
                k == k1 + 1,
        ;
    }
}

/// The pairs of a mapping whose keys and values are all `x` encode as copies of `x`.
proof fn lemma_uniform_pairs_encoding(ps: Seq<(ValueModel, ValueModel)>, x: ValueModel)
    requires
        forall|i: int| 0 <= i < ps.len() ==> #[trigger] ps[i] == (x, x),
    ensures
        encode_pairs(ps) == repeat(encode(x), 2 * ps.len()),
    decreases ps.len(),
{
    if ps.len() == 0 {
        assert(encode_pairs(ps) =~= repeat(encode(x), 0));
    } else {
        let front = ps.drop_last();
        assert forall|i: int| 0 <= i < front.len() implies #[trigger] front[i] == (x, x) by {
            assert(front[i] == ps[i]);
        }
        lemma_uniform_pairs_encoding(front, x);
        assert(ps.last() == (x, x));
        let n = (2 * ps.len()) as nat;
        assert(repeat(encode(x), n) == repeat(encode(x), (n - 1) as nat) + encode(x));
        assert(repeat(encode(x), (n - 1) as nat) == repeat(encode(x), (n - 2) as nat) + encode(
            x,
        ));
        assert(encode_pairs(ps) =~= repeat(encode(x), n));
    }
}

/// `k` pairs of `x` are read from `2k` copies of the encoding of `x`.
#[verifier::spinoff_prover]
#[verifier::rlimit(40)]
proof fn lemma_uniform_pairs_read(x: ValueModel, k: nat, tail: Seq<u8>)
    requires
        forall|r: Seq<u8>| #[trigger] take_value(encode(x) + r) == Outcome::Done(encode(x).len(), x),
    ensures
        take_pairs(repeat(encode(x), 2 * k) + tail, k) == Outcome::Done(
            2 * k * encode(x).len(),
            Seq::new(k, |i: int| (x, x)),
        ),
    decreases k,
{
    let e = encode(x);
    let l = e.len();
    if k == 0 {
        assert(Seq::new(0, |i: int| (x, x)) =~= Seq::<(ValueModel, ValueModel)>::empty());
        assert(2 * k * l == 0) by (nonlinear_arith)
            requires
                k == 0,
        ;
    } else {
        let k1 = (k - 1) as nat;
        let inner = repeat(e, 2 * k1) + tail;
        lemma_repeat_front(e, 2 * k1);
        lemma_repeat_front(e, 2 * k1 + 1);
        assert(2 * k == 2 * k1 + 1 + 1);
        let s = repeat(e, 2 * k) + tail;
        assert(s =~= e + (e + inner));
        assert(take_value(s) == Outcome::Done(l, x));
        let r1 = s.subrange(l as int, s.len() as int);
        assert(r1 =~= e + inner);
        assert(take_value(r1) == Outcome::Done(l, x));
        let r2 = r1.subrange(l as int, r1.len() as int);
        assert(r2 =~= inner);
        lemma_uniform_pairs_read(x, k1, tail);
        assert(take_pairs(s, k) == prepend(l + l, (x, x), take_pairs(r2, k1)));
        assert(2 * k * l == l + l + 2 * k1 * l) by (nonlinear_arith)
            requires
                k == k1 + 1,
        ;
        assert(seq![(x, x)] + Seq::new(k1, |i: int| (x, x)) =~= Seq::new(k, |i: int| (x, x)));
    }
}

/// A mapping that reads back is read back from its encoding, given that its one
/// repeated key and value does.
proof fn lemma_mapping_roundtrip(ps: Seq<(ValueModel, ValueModel)>, rest: Seq<u8>)
    requires
        reads_back(ValueModel::Mapping(ps)),
        ps.len() > 0 ==> forall|r: Seq<u8>| #[trigger] take_value(encode(ps[0].0) + r)
            == Outcome::Done(encode(ps[0].0).len(), ps[0].0),
    ensures
        take_value(encode(ValueModel::Mapping(ps)) + rest) == Outcome::Done(
            encode(ValueModel::Mapping(ps)).len(),
            ValueModel::Mapping(ps),
        ),
{
    let m = ValueModel::Mapping(ps);
    let s = encode(m) + rest;
    let c = ps.len();
    let ec = encode_uint(c as u64);
    if c == 0 {
        assert(encode_pairs(ps) == Seq::<u8>::empty());
        assert(s =~= seq![0xbbu8] + ec + rest);
        law_uint_roundtrip(0xbb, 0, rest);
        assert(ps =~= Seq::<(ValueModel, ValueModel)>::empty());
        assert(s[0] == 0xbbu8);
        assert(read_uint(s) == Outcome::Done(1, 0u64));
        assert(take_pairs(s.subrange(1, s.len() as int), 0) == Outcome::Done(
            0,
            Seq::<(ValueModel, ValueModel)>::empty(),
        ));
        assert(take_mapping(s) == Outcome::Done(1, ValueModel::Mapping(ps)));
    } else {
        let x = ps[0].0;
        let e = encode(x);
        let b = ec.last();
        lemma_uniform_pairs_encoding(ps, x);
        let body = repeat(e, 2 * c);
        lemma_repeat_all(e, 2 * c, b);
        assert(s =~= seq![0xbbu8] + ec + (body + rest));
        law_uint_roundtrip(0xbb, c as u64, body + rest);
        let n = ec.len();
        let rest0 = s.subrange(n as int, s.len() as int);
        assert(rest0 =~= seq![b] + body + rest);
        assert(seq![b] + body =~= body + seq![b]);
        assert(rest0 =~= body + (seq![b] + rest));
        lemma_uniform_pairs_read(x, c, seq![b] + rest);
        assert(ps =~= Seq::new(c, |i: int| (x, x)));
        assert(s[0] == 0xbbu8);
        assert(take_mapping(s) == Outcome::Done(n + body.len(), ValueModel::Mapping(ps)));
    }
}

/// A byte string or text string is read back from its encoding.
proof fn lemma_blob_value_roundtrip(m: ValueModel, t: u8, b: Seq<u8>, rest: Seq<u8>)
    requires
        b.len() <= u64::MAX,
        (t == 0xbc && m == ValueModel::Bytes(b)) || (t == 0xbd && m == ValueModel::String(b)),
    ensures
        take_value(encode(m) + rest) == Outcome::Done(encode(m).len(), m),
{
    let s = encode(m) + rest;
    assert(s =~= seq![t] + encode_blob(b) + rest);
    law_blob_roundtrip(t, b, rest);
}

/// What `write` produces for a value that reads back, `take_from` reads back
/// whatever follows: the same value, from exactly the bytes written.
#[verifier::spinoff_prover]
pub proof fn law_roundtrip(m: ValueModel, rest: Seq<u8>)
    requires
        reads_back(m),
    ensures
        take_value(encode(m) + rest) == Outcome::Done(encode(m).len(), m),
    decreases m,
{
    let s = encode(m) + rest;
    match m {
        ValueModel::Table { hash, entries } => {
            lemma_table_roundtrip(hash, entries, rest);
        },
        ValueModel::Variant(inner) => {
            match inner {
                Some((index, v)) => {
                    let ei = encode_int(index);
                    assert(s =~= seq![0xb8u8] + ei + (encode(*v) + rest));
                    law_int_roundtrip(0xb8, index, encode(*v) + rest);
                    assert(s.subrange(ei.len() + 1 as int, s.len() as int) =~= encode(*v) + rest);
                    law_roundtrip(*v, rest);
                },
                None => {
                    let ei = encode_int(-1i64);
                    assert(s =~= seq![0xb8u8] + ei + (seq![0xbeu8] + rest));
                    law_int_roundtrip(0xb8, -1i64, seq![0xbeu8] + rest);
                    assert(s.subrange(ei.len() + 1 as int, s.len() as int) =~= seq![0xbeu8] + rest);
                    lemma_scalar_roundtrip(ValueModel::Nil, rest);
                },
            }
        },
        ValueModel::Structure(vs) => {
            let ec = encode_uint(vs.len() as u64);
            assert(s =~= seq![0xb9u8] + ec + (encode_values(vs) + rest));
            law_uint_roundtrip(0xb9, vs.len() as u64, encode_values(vs) + rest);
            assert(s.subrange(ec.len() + 1 as int, s.len() as int) =~= encode_values(vs) + rest);
            lemma_list_roundtrip(vs, rest);
        },
        ValueModel::Array(vs) => {
            let ec = encode_uint(vs.len() as u64);
            assert(s =~= seq![0xbau8] + ec + (encode_values(vs) + rest));
            law_uint_roundtrip(0xba, vs.len() as u64, encode_values(vs) + rest);
            assert(s.subrange(ec.len() + 1 as int, s.len() as int) =~= encode_values(vs) + rest);
            lemma_list_roundtrip(vs, rest);
        },
        ValueModel::Mapping(ps) => {
            if ps.len() > 0 {
                assert forall|r: Seq<u8>| #[trigger] take_value(encode(ps[0].0) + r)
                    == Outcome::Done(encode(ps[0].0).len(), ps[0].0) by {
                    law_roundtrip(ps[0].0, r);
                }
            }
            lemma_mapping_roundtrip(ps, rest);
        },
        ValueModel::Bytes(b) => {
            lemma_blob_value_roundtrip(m, 0xbc, b, rest);
        },
        ValueModel::String(b) => {
            lemma_blob_value_roundtrip(m, 0xbd, b, rest);
        },
        _ => {
            lemma_scalar_roundtrip(m, rest);
        },
    }
}

} // verus!
