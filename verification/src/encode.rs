//! The ghost-level encoder for the row layout, and the round-trip law: a row
//! encoded per this layout decodes back to exactly the same values.  Nothing
//! here is executable — the library only decodes — but the encoder pins the
//! byte layout down and the law holds the decoder to it.

use vstd::prelude::*;

verus! {

use vstd::bytes::{
    lemma_auto_spec_u16_to_from_le_bytes, lemma_auto_spec_u32_to_from_le_bytes,
    lemma_auto_spec_u64_to_from_le_bytes, spec_u16_to_le_bytes, spec_u32_to_le_bytes,
    spec_u64_to_le_bytes, spec_u64_to_le_bytes_to_open,
};
use vstd::utf8::{
    char_is_scalar, char_u32_cast, encode_scalar, encode_utf8, encode_utf8_decode_utf8,
    encode_utf8_valid_utf8, has_width_1_encoding,
};

use crate::rowconsumer::{decode_field_spec, decode_row_spec, decode_varstr_spec};
use crate::types::{
    field_width, row_matches, type_wf, value_matches_type, HeaderModel, TaserError, TaserType,
    TaserValueModel, VarStrModel,
};
use crate::util::{le_value, signed_value, trim_nuls, width_full};

/// `n` NUL bytes of padding.
pub open spec fn zeros(n: int) -> Seq<u8> {
    Seq::new(n as nat, |i: int| 0u8)
}

/// The little-endian encoding of `u` in `width` bytes.
pub open spec fn le_bytes(width: u8, u: u64) -> Seq<u8>
    recommends
        width == 1 || width == 2 || width == 4 || width == 8,
        u < width_full(width),
{
    if width == 1 {
        seq![u as u8]
    } else if width == 2 {
        spec_u16_to_le_bytes(u as u16)
    } else if width == 4 {
        spec_u32_to_le_bytes(u as u32)
    } else {
        spec_u64_to_le_bytes(u)
    }
}

/// The unsigned `width`-byte two's-complement representation of `value`.
pub open spec fn unsigned_repr(width: u8, value: i64) -> u64
    recommends
        -(width_full(width) / 2) <= value < width_full(width) / 2,
{
    if value >= 0 {
        value as u64
    } else {
        (value + width_full(width)) as u64
    }
}

/// The wire bytes of one field of type `t` holding value `v`: a fixed string
/// is its UTF-8 bytes padded with NULs to the field width; a reference slot
/// is two little-endian 8-byte integers; an inline slot is a length byte
/// with the high bit set, the payload, and NUL padding to 16 bytes; integers
/// are little-endian, two's complement when signed.
pub open spec fn encode_value(t: TaserType, v: TaserValueModel) -> Seq<u8> {
    match v {
        TaserValueModel::FixedStr(s) => {
            let payload = encode_utf8(s);
            payload + zeros(field_width(t) - payload.len())
        },
        TaserValueModel::VarStr(VarStrModel::Position { offset, length }) => spec_u64_to_le_bytes(
            offset,
        ) + spec_u64_to_le_bytes(length),
        TaserValueModel::VarStr(VarStrModel::Collected(s)) => {
            let payload = encode_utf8(s);
            seq![(0x80 + payload.len()) as u8] + payload + zeros(15 - payload.len())
        },
        TaserValueModel::UInt { width, value } => le_bytes(width, value),
        TaserValueModel::Int { width, value } => le_bytes(width, unsigned_repr(width, value)),
    }
}

/// When a value can be laid out in its field and decoded back unchanged: its
/// payload fits the slot, a fixed string carries no trailing NUL of its own
/// (decoding trims the padding, so re-encoding a trimmed string is exact), a
/// reference's first offset byte leaves the inline bit clear, and integers
/// are within their width's range.
pub open spec fn value_encodable(t: TaserType, v: TaserValueModel) -> bool {
    match v {
        TaserValueModel::FixedStr(s) => {
            &&& encode_utf8(s).len() <= field_width(t)
            &&& s.len() > 0 ==> s.last() != '\0'
        },
        TaserValueModel::VarStr(VarStrModel::Position { offset, length }) => offset % 256 < 0x80,
        TaserValueModel::VarStr(VarStrModel::Collected(s)) => encode_utf8(s).len() <= 15,
        TaserValueModel::UInt { width, value } => value < width_full(width),
        TaserValueModel::Int { width, value } => -(width_full(width) / 2) <= value < width_full(
            width,
        ) / 2,
    }
}

/// The wire bytes of a row's fixed-width region: each field's encoding, in
/// header order.
pub open spec fn encode_row(hs: Seq<HeaderModel>, row: Seq<TaserValueModel>) -> Seq<u8>
    recommends
        row.len() == hs.len(),
    decreases hs.len(),
{
    if hs.len() == 0 {
        Seq::empty()
    } else {
        encode_value(hs[0].ttype, row[0]) + encode_row(hs.drop_first(), row.drop_first())
    }
}

/// A row that can be laid out and decoded back unchanged: it matches a
/// well-formed schema and each value is encodable in its field.
pub open spec fn row_encodable(hs: Seq<HeaderModel>, row: Seq<TaserValueModel>) -> bool {
    &&& row_matches(hs, row)
    &&& forall|i: int| 0 <= i < hs.len() ==> type_wf(#[trigger] hs[i].ttype)
    &&& forall|i: int| 0 <= i < hs.len() ==> value_encodable(hs[i].ttype, #[trigger] row[i])
}

/// The UTF-8 encoding of a sequence not ending in NUL is nonempty and does
/// not end in a zero byte.
proof fn lemma_encode_utf8_nonzero_last(s: Seq<char>)
    requires
        s.len() > 0,
        s.last() != '\0',
    ensures
        encode_utf8(s).len() > 0,
        encode_utf8(s).last() != 0,
    decreases s.len(),
{
    let v = s[0] as u32;
    char_is_scalar(s[0]);
    if s.len() == 1 {
        char_u32_cast(s[0], v);
        if v == 0 {
            char_u32_cast('\0', 0);
        }
        assert(v != 0);
        if has_width_1_encoding(v) {
            assert((v & 0x7f) != 0) by (bit_vector)
                requires
                    v <= 0x7f,
                    v != 0u32,
            ;
        } else {
            let x = (v & 0x3f) as u8;
            assert(0x80u8 | x >= 0x80) by (bit_vector);
        }
        assert(encode_utf8(s.drop_first()) =~= Seq::<u8>::empty());
        assert(encode_utf8(s) =~= encode_scalar(v));
    } else {
        lemma_encode_utf8_nonzero_last(s.drop_first());
        assert(s.drop_first().last() == s.last());
        assert(encode_utf8(s).last() == encode_utf8(s.drop_first()).last());
    }
}

/// Trailing NUL padding trims away exactly: appending NULs to a sequence
/// that does not end in one changes nothing about its trimmed form.
proof fn lemma_trim_nuls_padding(a: Seq<u8>, n: int)
    requires
        n >= 0,
        a.len() == 0 || a.last() != 0,
    ensures
        trim_nuls(a + zeros(n)) == a,
    decreases n,
{
    if n == 0 {
        assert(a + zeros(0) =~= a);
    } else {
        let b = a + zeros(n);
        assert(b.last() == 0);
        assert(b.drop_last() =~= a + zeros(n - 1));
        lemma_trim_nuls_padding(a, n - 1);
    }
}

/// One field decodes back to the value it was encoded from.
pub proof fn lemma_field_round_trip(t: TaserType, v: TaserValueModel)
    requires
        type_wf(t),
        value_matches_type(t, v),
        value_encodable(t, v),
    ensures
        encode_value(t, v).len() == field_width(t),
        decode_field_spec(t, encode_value(t, v)) == Ok::<TaserValueModel, TaserError>(v),
{
    broadcast use encode_utf8_valid_utf8, encode_utf8_decode_utf8;

    let b = encode_value(t, v);
    match v {
        TaserValueModel::FixedStr(s) => {
            let payload = encode_utf8(s);
            if s.len() > 0 {
                lemma_encode_utf8_nonzero_last(s);
            } else {
                assert(payload =~= Seq::<u8>::empty());
            }
            lemma_trim_nuls_padding(payload, field_width(t) - payload.len());
            assert(trim_nuls(b) == payload);
        },
        TaserValueModel::VarStr(VarStrModel::Position { offset, length }) => {
            lemma_auto_spec_u64_to_from_le_bytes();
            spec_u64_to_le_bytes_to_open(offset);
            assert(b[0] == (offset & 0xff) as u8);
            assert((offset & 0xff) as u8 == (offset % 256) as u8) by (bit_vector);
            assert(b.subrange(0, 8) =~= spec_u64_to_le_bytes(offset));
            assert(b.subrange(8, 16) =~= spec_u64_to_le_bytes(length));
            assert(decode_varstr_spec(b) == Ok::<VarStrModel, TaserError>(
                VarStrModel::Position { offset, length },
            ));
        },
        TaserValueModel::VarStr(VarStrModel::Collected(s)) => {
            let payload = encode_utf8(s);
            let l = payload.len() as int;
            assert(b[0] == (0x80 + l) as u8);
            assert(b.subrange(1, 1 + l) =~= payload);
            assert(decode_varstr_spec(b) == Ok::<VarStrModel, TaserError>(
                VarStrModel::Collected(s),
            ));
        },
        TaserValueModel::UInt { width, value } => {
            lemma_le_round_trip(width, value);
        },
        TaserValueModel::Int { width, value } => {
            let u = unsigned_repr(width, value);
            lemma_le_round_trip(width, u);
            assert(signed_value(width, u) == value);
        },
    }
}

/// Little-endian encoding and decoding of a value within its width's range
/// are inverse.
proof fn lemma_le_round_trip(width: u8, u: u64)
    requires
        width == 1 || width == 2 || width == 4 || width == 8,
        u < width_full(width),
    ensures
        le_bytes(width, u).len() == width,
        le_value(width, le_bytes(width, u)) == u,
{
    if width == 1 {
    } else if width == 2 {
        lemma_auto_spec_u16_to_from_le_bytes();
    } else if width == 4 {
        lemma_auto_spec_u32_to_from_le_bytes();
    } else {
        lemma_auto_spec_u64_to_from_le_bytes();
    }
}

/// The round-trip law: a row encoded per this layout decodes back
/// field-for-field to exactly the values it was encoded from.
pub proof fn lemma_row_round_trip(hs: Seq<HeaderModel>, row: Seq<TaserValueModel>)
    requires
        row_encodable(hs, row),
    ensures
        decode_row_spec(hs, encode_row(hs, row)) == Ok::<Seq<TaserValueModel>, TaserError>(row),
    decreases hs.len(),
{
    if hs.len() == 0 {
        assert(row =~= Seq::<TaserValueModel>::empty());
        assert(Seq::<TaserValueModel>::empty() + Seq::<TaserValueModel>::empty()
            =~= Seq::<TaserValueModel>::empty());
    } else {
        let b = encode_row(hs, row);
        let w = field_width(hs[0].ttype);
        lemma_field_round_trip(hs[0].ttype, row[0]);
        assert(b.subrange(0, w) =~= encode_value(hs[0].ttype, row[0]));
        assert(b.skip(w) =~= encode_row(hs.drop_first(), row.drop_first()));
        assert forall|i: int| 0 <= i < hs.drop_first().len() implies {
            &&& value_matches_type(
                hs.drop_first()[i].ttype,
                #[trigger] row.drop_first()[i],
            )
            &&& type_wf(hs.drop_first()[i].ttype)
            &&& value_encodable(hs.drop_first()[i].ttype, row.drop_first()[i])
        } by {
            assert(hs.drop_first()[i] == hs[i + 1]);
            assert(row.drop_first()[i] == row[i + 1]);
            assert(value_matches_type(hs[i + 1].ttype, row[i + 1]));
            assert(value_encodable(hs[i + 1].ttype, row[i + 1]));
        }
        lemma_row_round_trip(hs.drop_first(), row.drop_first());
        assert(seq![row[0]] + row.drop_first() =~= row);
    }
}

} // verus!
