//! Decoding one row: each field of the fixed-width region according to its
//! header, the inline/reference rule for variable strings, and the resolver
//! that replaces blob references with their payloads.

use vstd::prelude::*;

verus! {

use vstd::bytes::{spec_u64_from_le_bytes, u64_from_le_bytes};
use vstd::slice::{slice_index_get, slice_subrange};
use vstd::utf8::{decode_utf8, valid_utf8};

use crate::types::{
    field_width, headers_view, row_matches, row_resolved, type_wf, value_matches_type,
    HeaderModel, TaserError, TaserHeader, TaserRow, TaserType, TaserValue, TaserValueModel,
    VarStr, VarStrModel,
};
use crate::util::{le_value, read_le, signed_value, to_signed, trim_nuls, trimmed_utf8,
    utf8_to_string};

/// What a 16-byte variable-string slot denotes.  A clear most-significant bit
/// in byte 0 makes the whole slot two little-endian 8-byte integers: an
/// offset and a length into the row's blob region.  A set bit makes the low
/// 7 bits of byte 0 an inline length `L < 16`, with the payload in the `L`
/// bytes that follow.
pub open spec fn decode_varstr_spec(b: Seq<u8>) -> Result<VarStrModel, TaserError>
    recommends
        b.len() == 16,
{
    if b[0] < 0x80 {
        Ok(VarStrModel::Position {
            offset: spec_u64_from_le_bytes(b.subrange(0, 8)),
            length: spec_u64_from_le_bytes(b.subrange(8, 16)),
        })
    } else {
        let l = b[0] - 0x80;
        if l >= 16 {
            Err(TaserError::InlineLengthOverflow)
        } else {
            let payload = b.subrange(1, 1 + l);
            if valid_utf8(payload) {
                Ok(VarStrModel::Collected(decode_utf8(payload)))
            } else {
                Err(TaserError::InvalidUtf8)
            }
        }
    }
}

/// What a field of type `t` denotes, given exactly its `field_width(t)` bytes
/// of the fixed-width region.
pub open spec fn decode_field_spec(t: TaserType, b: Seq<u8>) -> Result<TaserValueModel, TaserError>
    recommends
        type_wf(t),
        b.len() == field_width(t),
{
    match t {
        TaserType::FixedStr(_) => {
            let trimmed = trim_nuls(b);
            if valid_utf8(trimmed) {
                Ok(TaserValueModel::FixedStr(decode_utf8(trimmed)))
            } else {
                Err(TaserError::InvalidUtf8)
            }
        },
        TaserType::VarStr => match decode_varstr_spec(b) {
            Ok(v) => Ok(TaserValueModel::VarStr(v)),
            Err(e) => Err(e),
        },
        TaserType::UInt(w) => Ok(TaserValueModel::UInt { width: w, value: le_value(w, b) }),
        TaserType::Int(w) => Ok(
            TaserValueModel::Int {
                width: w,
                value: signed_value(w, le_value(w, b)) as i64,
            },
        ),
    }
}

/// What a whole row denotes: the fields decoded left to right, one per
/// header, each from its own slice of the fixed-width region; the first
/// failing field decides the error.
pub open spec fn decode_row_spec(hs: Seq<HeaderModel>, b: Seq<u8>) -> Result<
    Seq<TaserValueModel>,
    TaserError,
>
    recommends
        b.len() == crate::types::row_width_of(hs),
    decreases hs.len(),
{
    if hs.len() == 0 {
        Ok(Seq::empty())
    } else {
        let w = field_width(hs[0].ttype);
        match decode_field_spec(hs[0].ttype, b.subrange(0, w)) {
            Err(e) => Err(e),
            Ok(v) => match decode_row_spec(hs.drop_first(), b.skip(w)) {
                Err(e) => Err(e),
                Ok(rest) => Ok(seq![v] + rest),
            },
        }
    }
}

/// A successfully decoded field always matches its declared type.
pub proof fn lemma_decode_field_matches(t: TaserType, b: Seq<u8>)
    ensures
        decode_field_spec(t, b) matches Ok(v) ==> value_matches_type(t, v),
{
}

/// A successfully decoded row is shaped by its schema: one value per header,
/// each matching its header's type.
pub proof fn lemma_decode_row_matches(hs: Seq<HeaderModel>, b: Seq<u8>)
    ensures
        decode_row_spec(hs, b) matches Ok(row) ==> row_matches(hs, row),
    decreases hs.len(),
{
    if hs.len() > 0 {
        let w = field_width(hs[0].ttype);
        lemma_decode_field_matches(hs[0].ttype, b.subrange(0, w));
        lemma_decode_row_matches(hs.drop_first(), b.skip(w));
        if decode_row_spec(hs, b) is Ok {
            let row = decode_row_spec(hs, b)->Ok_0;
            let rest = decode_row_spec(hs.drop_first(), b.skip(w))->Ok_0;
            assert forall|i: int| 0 <= i < hs.len() implies value_matches_type(
                hs[i].ttype,
                #[trigger] row[i],
            ) by {
                if i > 0 {
                    assert(row[i] == rest[i - 1]);
                    assert(hs.drop_first()[i - 1] == hs[i]);
                }
            }
        }
    }
}

/// Decode one 16-byte variable-string slot.
pub fn inline_varstr_parser(input: &[u8]) -> (r: Result<VarStr, TaserError>)
    requires
        input@.len() == 16,
    ensures
        match r {
            Ok(v) => decode_varstr_spec(input@) == Ok::<VarStrModel, TaserError>(v@),
            Err(e) => decode_varstr_spec(input@) == Err::<VarStrModel, TaserError>(e),
        },
{
    let b0 = *slice_index_get(input, 0);
    if b0 & 0x80 == 0 {
        proof {
            assert(b0 < 0x80) by (bit_vector)
                requires
                    b0 & 0x80 == 0,
            ;
        }
        let offset = u64_from_le_bytes(slice_subrange(input, 0, 8));
        let length = u64_from_le_bytes(slice_subrange(input, 8, 16));
        Ok(VarStr::Position { offset, length })
    } else {
        proof {
            assert(b0 >= 0x80 && b0 & 0x7f == b0 - 0x80) by (bit_vector)
                requires
                    b0 & 0x80 != 0,
            ;
        }
        let l = b0 & 0x7f;
        if l >= 16 {
            Err(TaserError::InlineLengthOverflow)
        } else {
            match utf8_to_string(slice_subrange(input, 1, 1 + l as usize)) {
                Some(s) => Ok(VarStr::Collected(s)),
                None => Err(TaserError::InvalidUtf8),
            }
        }
    }
}

/// Decode one field from exactly its slice of the fixed-width region.
fn decode_field(t: &TaserType, b: &[u8]) -> (r: Result<TaserValue, TaserError>)
    requires
        type_wf(*t),
        b@.len() == field_width(*t),
    ensures
        match r {
            Ok(v) => decode_field_spec(*t, b@) == Ok::<TaserValueModel, TaserError>(v@),
            Err(e) => decode_field_spec(*t, b@) == Err::<TaserValueModel, TaserError>(e),
        },
{
    match t {
        TaserType::FixedStr(_) => match trimmed_utf8(b) {
            Some(s) => Ok(TaserValue::FixedStr(s)),
            None => Err(TaserError::InvalidUtf8),
        },
        TaserType::VarStr => match inline_varstr_parser(b) {
            Ok(v) => Ok(TaserValue::VarStr(v)),
            Err(e) => Err(e),
        },
        TaserType::UInt(w) => {
            let value = read_le(*w, b);
            Ok(TaserValue::UInt { width: *w, value })
        },
        TaserType::Int(w) => {
            let u = read_le(*w, b);
            let value = to_signed(*w, u);
            Ok(TaserValue::Int { width: *w, value })
        },
    }
}

/// The loop invariant of [`single_row_parser`]: the fields decoded so far,
/// together with whatever the remaining headers denote, decide the row.
pub open spec fn decode_row_from(
    hs: Seq<HeaderModel>,
    bs: Seq<u8>,
    done: Seq<TaserValueModel>,
    i: int,
    off: int,
) -> bool {
    match decode_row_spec(hs.skip(i), bs.skip(off)) {
        Ok(rest) => decode_row_spec(hs, bs) == Ok::<Seq<TaserValueModel>, TaserError>(done + rest),
        Err(e) => decode_row_spec(hs, bs) == Err::<Seq<TaserValueModel>, TaserError>(e),
    }
}

/// Decode one row of `row_length` bytes from the front of `input`, one field
/// per header, left to right.
pub fn single_row_parser(input: &[u8], headers: &[TaserHeader], row_length: usize) -> (r: Result<
    TaserRow,
    TaserError,
>)
    requires
        forall|i: int| 0 <= i < headers@.len() ==> type_wf(#[trigger] headers@[i].ttype),
        row_length as int == crate::types::row_width_of(headers_view(headers@)),
        input@.len() >= row_length as int,
    ensures
        match r {
            Ok(row) => decode_row_spec(
                headers_view(headers@),
                input@.subrange(0, row_length as int),
            ) == Ok::<Seq<TaserValueModel>, TaserError>(row@),
            Err(e) => decode_row_spec(
                headers_view(headers@),
                input@.subrange(0, row_length as int),
            ) == Err::<Seq<TaserValueModel>, TaserError>(e),
        },
{
    let ghost hs = headers_view(headers@);
    let ghost bs = input@.subrange(0, row_length as int);
    let mut fields: Vec<TaserValue> = Vec::new();
    let mut off: usize = 0;
    let mut i: usize = 0;
    proof {
        assert(hs.skip(0) =~= hs);
        assert(bs.skip(0) =~= bs);
        assert(fields@.map(|k: int, v: TaserValue| v@) =~= Seq::<TaserValueModel>::empty());
    }
    while i < headers.len()
        invariant
            forall|k: int| 0 <= k < headers@.len() ==> type_wf(#[trigger] headers@[k].ttype),
            row_length as int == crate::types::row_width_of(hs),
            input@.len() >= row_length as int,
            hs == headers_view(headers@),
            bs == input@.subrange(0, row_length as int),
            i <= headers@.len(),
            fields@.len() == i,
            off as int == crate::types::row_width_of(hs.take(i as int)),
            off <= row_length,
            decode_row_from(hs, bs, fields@.map(|k: int, v: TaserValue| v@), i as int, off as int),
        decreases headers@.len() - i,
    {
        let ghost done = fields@.map(|k: int, v: TaserValue| v@);
        let h = slice_index_get(headers, i);
        proof {
            assert(hs[i as int] == headers@[i as int]@);
            crate::types::lemma_row_width_take_succ(hs, i as int);
            crate::types::lemma_row_width_split(hs, i as int + 1);
            crate::types::lemma_row_width_bound(hs.skip(i as int + 1));
        }
        let w: usize = match &h.ttype {
            TaserType::FixedStr(n) => *n as usize,
            TaserType::VarStr => 16,
            TaserType::UInt(wd) => *wd as usize,
            TaserType::Int(wd) => *wd as usize,
        };
        assert(off + w <= row_length);
        let fb = slice_subrange(input, off, off + w);
        proof {
            assert(fb@ =~= bs.skip(off as int).subrange(0, w as int));
            assert(hs.skip(i as int)[0] == hs[i as int]);
            assert(hs.skip(i as int).drop_first() =~= hs.skip(i as int + 1));
            assert(bs.skip(off as int).skip(w as int) =~= bs.skip(off as int + w as int));
        }
        match decode_field(&h.ttype, fb) {
            Ok(v) => {
                let ghost vm = v@;
                fields.push(v);
                proof {
                    assert(fields@.map(|k: int, v: TaserValue| v@) =~= done.push(vm));
                    if decode_row_spec(hs.skip(i as int + 1), bs.skip(off as int + w as int))
                        is Ok {
                        let rest = decode_row_spec(
                            hs.skip(i as int + 1),
                            bs.skip(off as int + w as int),
                        )->Ok_0;
                        assert(decode_row_spec(hs.skip(i as int), bs.skip(off as int))
                            == Ok::<Seq<TaserValueModel>, TaserError>(seq![vm] + rest));
                        assert(done + (seq![vm] + rest) =~= done.push(vm) + rest);
                    }
                }
                off = off + w;
                i = i + 1;
            },
            Err(e) => {
                proof {
                    assert(decode_row_spec(hs.skip(i as int), bs.skip(off as int))
                        == Err::<Seq<TaserValueModel>, TaserError>(e));
                }
                return Err(e);
            },
        }
    }
    proof {
        assert(hs.skip(i as int).len() == 0);
        assert(decode_row_spec(hs.skip(i as int), bs.skip(off as int)) == Ok::<
            Seq<TaserValueModel>,
            TaserError,
        >(Seq::empty()));
        assert(fields@.map(|k: int, v: TaserValue| v@) + Seq::<TaserValueModel>::empty()
            =~= fields@.map(|k: int, v: TaserValue| v@));
    }
    Ok(TaserRow { fields })
}

/// How far past the start of the blob region a reference-encoded value
/// reaches: `offset + length` for an unresolved reference, 0 for everything
/// else.
pub open spec fn position_extent(v: TaserValueModel) -> int {
    match v {
        TaserValueModel::VarStr(VarStrModel::Position { offset, length }) => offset + length,
        _ => 0,
    }
}

/// The size of a row's blob region: the maximum extent of its unresolved
/// references (0 when the row has none).
pub open spec fn blob_size_of(row: Seq<TaserValueModel>) -> int
    decreases row.len(),
{
    if row.len() == 0 {
        0
    } else {
        let head = position_extent(row[0]);
        let rest = blob_size_of(row.drop_first());
        if head >= rest {
            head
        } else {
            rest
        }
    }
}

/// The blob-region size is never negative and covers every reference's
/// extent.
pub proof fn lemma_blob_size_ge(row: Seq<TaserValueModel>)
    ensures
        blob_size_of(row) >= 0,
        forall|j: int| 0 <= j < row.len() ==> blob_size_of(row) >= position_extent(
            #[trigger] row[j],
        ),
    decreases row.len(),
{
    if row.len() > 0 {
        lemma_blob_size_ge(row.drop_first());
        assert forall|j: int| 0 <= j < row.len() implies blob_size_of(row) >= position_extent(
            #[trigger] row[j],
        ) by {
            if j > 0 {
                assert(row.drop_first()[j - 1] == row[j]);
            }
        }
    }
}

/// What resolving one value against the blob region yields: an unresolved
/// reference becomes the UTF-8 decoding of blob bytes `[offset,
/// offset + length)`; every other value is kept as it is.
pub open spec fn resolve_value_spec(v: TaserValueModel, blob: Seq<u8>) -> Result<
    TaserValueModel,
    TaserError,
> {
    match v {
        TaserValueModel::VarStr(VarStrModel::Position { offset, length }) => {
            if offset + length > blob.len() {
                Err(TaserError::BlobBoundsError)
            } else {
                let payload = blob.subrange(offset as int, offset + length);
                if valid_utf8(payload) {
                    Ok(TaserValueModel::VarStr(VarStrModel::Collected(decode_utf8(payload))))
                } else {
                    Err(TaserError::InvalidUtf8)
                }
            }
        },
        _ => Ok(v),
    }
}

/// What resolving a whole row yields: each field resolved in order, the
/// first failing field deciding the error.
pub open spec fn resolve_fields_spec(fields: Seq<TaserValueModel>, blob: Seq<u8>) -> Result<
    Seq<TaserValueModel>,
    TaserError,
>
    decreases fields.len(),
{
    if fields.len() == 0 {
        Ok(Seq::empty())
    } else {
        match resolve_value_spec(fields[0], blob) {
            Err(e) => Err(e),
            Ok(v) => match resolve_fields_spec(fields.drop_first(), blob) {
                Err(e) => Err(e),
                Ok(rest) => Ok(seq![v] + rest),
            },
        }
    }
}

/// An inline-encoded variable string is already resolved: resolving it
/// returns it unchanged, whatever the blob region holds.
pub proof fn lemma_inline_ignores_blob(s: Seq<char>, blob: Seq<u8>)
    ensures
        resolve_value_spec(TaserValueModel::VarStr(VarStrModel::Collected(s)), blob) == Ok::<
            TaserValueModel,
            TaserError,
        >(TaserValueModel::VarStr(VarStrModel::Collected(s))),
{
}

/// Resolution keeps a value's variant: references become resolved variable
/// strings and everything else is untouched.
pub open spec fn value_variant_kept(v: TaserValueModel, r: TaserValueModel) -> bool {
    match v {
        TaserValueModel::VarStr(_) => r matches TaserValueModel::VarStr(
            VarStrModel::Collected(_),
        ),
        _ => r == v,
    }
}

/// A successfully resolved row has one value per original field, none of
/// them an unresolved reference, each variant kept.
pub proof fn lemma_resolve_props(fields: Seq<TaserValueModel>, blob: Seq<u8>)
    ensures
        resolve_fields_spec(fields, blob) matches Ok(res) ==> {
            &&& res.len() == fields.len()
            &&& row_resolved(res)
            &&& forall|i: int|
                0 <= i < fields.len() ==> value_variant_kept(fields[i], #[trigger] res[i])
        },
    decreases fields.len(),
{
    if fields.len() > 0 && resolve_fields_spec(fields, blob) is Ok {
        lemma_resolve_props(fields.drop_first(), blob);
        let res = resolve_fields_spec(fields, blob)->Ok_0;
        let rest = resolve_fields_spec(fields.drop_first(), blob)->Ok_0;
        assert forall|i: int| 0 <= i < fields.len() implies value_variant_kept(
            fields[i],
            #[trigger] res[i],
        ) by {
            if i > 0 {
                assert(res[i] == rest[i - 1]);
                assert(fields.drop_first()[i - 1] == fields[i]);
            }
        }
        assert forall|i: int| 0 <= i < res.len() implies !(#[trigger] res[i]
            matches TaserValueModel::VarStr(VarStrModel::Position { .. })) by {
            if i > 0 {
                assert(res[i] == rest[i - 1]);
            }
        }
    }
}

/// A resolved row still matches the schema the original row matched.
pub proof fn lemma_resolve_matches(
    hs: Seq<HeaderModel>,
    fields: Seq<TaserValueModel>,
    blob: Seq<u8>,
)
    requires
        row_matches(hs, fields),
        resolve_fields_spec(fields, blob) is Ok,
    ensures
        row_matches(hs, resolve_fields_spec(fields, blob)->Ok_0),
        row_resolved(resolve_fields_spec(fields, blob)->Ok_0),
{
    lemma_resolve_props(fields, blob);
    let res = resolve_fields_spec(fields, blob)->Ok_0;
    assert forall|i: int| 0 <= i < hs.len() implies value_matches_type(
        hs[i].ttype,
        #[trigger] res[i],
    ) by {
        assert(value_matches_type(hs[i].ttype, fields[i]));
        assert(value_variant_kept(fields[i], res[i]));
    }
}

/// The blob-region size of a row, or `None` when the extent of some
/// reference exceeds `u64::MAX` (no real buffer could ever satisfy it).
pub fn row_blob_size(row: &TaserRow) -> (r: Option<u64>)
    ensures
        match r {
            Some(n) => n as int == blob_size_of(row@),
            None => blob_size_of(row@) > u64::MAX,
        },
{
    let mut i: usize = row.fields.len();
    let mut acc: u64 = 0;
    proof {
        assert(row@.skip(i as int).len() == 0);
    }
    while i > 0
        invariant
            i <= row.fields@.len(),
            row@.len() == row.fields@.len(),
            acc as int == blob_size_of(row@.skip(i as int)),
        decreases i,
    {
        i = i - 1;
        proof {
            assert(row@.skip(i as int).drop_first() =~= row@.skip(i as int + 1));
            assert(row@.skip(i as int)[0] == row@[i as int]);
            assert(row@[i as int] == row.fields@[i as int]@);
        }
        let (is_pos, off_v, len_v) = match &row.fields[i] {
            TaserValue::VarStr(VarStr::Position { offset, length }) => (true, *offset, *length),
            _ => (false, 0u64, 0u64),
        };
        if is_pos {
            if off_v > u64::MAX - len_v {
                proof {
                    lemma_blob_size_ge(row@);
                }
                return None;
            }
            let s = off_v + len_v;
            if s > acc {
                acc = s;
            }
        }
    }
    proof {
        assert(row@.skip(0) =~= row@);
    }
    Some(acc)
}

/// The loop invariant of [`resolve_row`]: the fields resolved so far,
/// together with whatever the remaining fields resolve to, decide the row.
pub open spec fn resolve_row_from(
    orig: Seq<TaserValueModel>,
    blob: Seq<u8>,
    cur: Seq<TaserValueModel>,
    i: int,
) -> bool {
    match resolve_fields_spec(orig.skip(i), blob) {
        Ok(rest) => resolve_fields_spec(orig, blob) == Ok::<Seq<TaserValueModel>, TaserError>(
            cur.take(i) + rest,
        ),
        Err(e) => resolve_fields_spec(orig, blob) == Err::<Seq<TaserValueModel>, TaserError>(e),
    }
}

/// Replace every unresolved reference of `row` with the UTF-8 decoding of
/// its blob-region bytes.
#[verifier::loop_isolation(false)]
pub fn resolve_row(row: TaserRow, blob: &[u8]) -> (r: Result<TaserRow, TaserError>)
    ensures
        match r {
            Ok(res) => {
                &&& resolve_fields_spec(row@, blob@) == Ok::<Seq<TaserValueModel>, TaserError>(
                    res@,
                )
                &&& res@.len() == row@.len()
                &&& row_resolved(res@)
            },
            Err(e) => resolve_fields_spec(row@, blob@) == Err::<Seq<TaserValueModel>, TaserError>(
                e,
            ),
        },
{
    let ghost orig = row@;
    let mut row = row;
    let mut i: usize = 0;
    proof {
        assert(orig.skip(0) =~= orig);
        assert(orig.take(0) + resolve_fields_spec(orig, blob@)->Ok_0 =~= resolve_fields_spec(
            orig,
            blob@,
        )->Ok_0);
    }
    while i < row.fields.len()
        invariant
            i <= row.fields@.len(),
            row@.len() == row.fields@.len(),
            orig.len() == row@.len(),
            row@.skip(i as int) =~= orig.skip(i as int),
            resolve_row_from(orig, blob@, row@, i as int),
        decreases row.fields@.len() - i,
    {
        let ghost cur = row@;
        proof {
            assert(orig.skip(i as int).drop_first() =~= orig.skip(i as int + 1));
            assert(orig.skip(i as int)[0] == orig[i as int]);
            assert(cur[i as int] == orig[i as int]);
            assert(cur[i as int] == row.fields@[i as int]@);
        }
        let (is_pos, off_v, len_v) = match &row.fields[i] {
            TaserValue::VarStr(VarStr::Position { offset, length }) => (true, *offset, *length),
            _ => (false, 0u64, 0u64),
        };
        if is_pos {
            proof {
                assert(orig[i as int] == TaserValueModel::VarStr(VarStrModel::Position {
                    offset: off_v,
                    length: len_v,
                }));
            }
            if off_v > blob.len() as u64 || len_v > blob.len() as u64 - off_v {
                proof {
                    assert(resolve_value_spec(orig[i as int], blob@) == Err::<
                        TaserValueModel,
                        TaserError,
                    >(TaserError::BlobBoundsError));
                    assert(resolve_fields_spec(orig.skip(i as int), blob@) == Err::<
                        Seq<TaserValueModel>,
                        TaserError,
                    >(TaserError::BlobBoundsError));
                    assert(resolve_fields_spec(orig, blob@) == Err::<
                        Seq<TaserValueModel>,
                        TaserError,
                    >(TaserError::BlobBoundsError));
                }
                return Err(TaserError::BlobBoundsError);
            }
            let payload = slice_subrange(blob, off_v as usize, (off_v + len_v) as usize);
            match utf8_to_string(payload) {
                None => {
                    proof {
                        assert(resolve_value_spec(orig[i as int], blob@) == Err::<
                            TaserValueModel,
                            TaserError,
                        >(TaserError::InvalidUtf8));
                        assert(resolve_fields_spec(orig.skip(i as int), blob@) == Err::<
                            Seq<TaserValueModel>,
                            TaserError,
                        >(TaserError::InvalidUtf8));
                        assert(resolve_fields_spec(orig, blob@) == Err::<
                            Seq<TaserValueModel>,
                            TaserError,
                        >(TaserError::InvalidUtf8));
                    }
                    return Err(TaserError::InvalidUtf8);
                },
                Some(s) => {
                    let v = TaserValue::VarStr(VarStr::Collected(s));
                    let ghost vm = v@;
                    row.fields[i] = v;
                    proof {
                        assert(row@ =~= cur.update(i as int, vm));
                        assert(row@.skip(i as int + 1) =~= orig.skip(i as int + 1));
                        assert(resolve_value_spec(orig[i as int], blob@) == Ok::<
                            TaserValueModel,
                            TaserError,
                        >(vm));
                        if resolve_fields_spec(orig.skip(i as int + 1), blob@) is Ok {
                            let rest = resolve_fields_spec(orig.skip(i as int + 1), blob@)->Ok_0;
                            assert(cur.take(i as int) + (seq![vm] + rest) =~= row@.take(
                                i as int + 1,
                            ) + rest);
                        }
                    }
                },
            }
        } else {
            proof {
                let vm = orig[i as int];
                assert(resolve_value_spec(vm, blob@) == Ok::<TaserValueModel, TaserError>(vm));
                if resolve_fields_spec(orig.skip(i as int + 1), blob@) is Ok {
                    let rest = resolve_fields_spec(orig.skip(i as int + 1), blob@)->Ok_0;
                    assert(cur.take(i as int) + (seq![vm] + rest) =~= cur.take(i as int + 1)
                        + rest);
                }
            }
        }
        i = i + 1;
    }
    proof {
        assert(orig.skip(i as int).len() == 0);
        assert(resolve_fields_spec(orig.skip(i as int), blob@) == Ok::<
            Seq<TaserValueModel>,
            TaserError,
        >(Seq::empty()));
        assert(row@.take(i as int) + Seq::<TaserValueModel>::empty() =~= row@);
        lemma_resolve_props(orig, blob@);
    }
    Ok(row)
}

} // verus!
