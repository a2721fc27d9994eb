//! The data model of a TASR stream: field types, field values, headers, rows,
//! the error taxonomy, and the ghost-level models that contracts are stated
//! over.

use vstd::prelude::*;

verus! {

/// The type of one field, as declared by a header record.
#[derive(Clone, Copy, Debug, PartialEq, Eq, Structural)]
pub enum TaserType {
    /// A byte string padded with NUL bytes to the given width (always > 0).
    FixedStr(u32),
    /// A 16-byte slot holding either an inline string or an (offset, length)
    /// reference into the row's blob region.
    VarStr,
    /// A little-endian unsigned integer of width 1, 2, 4 or 8 bytes.
    UInt(u8),
    /// A little-endian two's-complement integer of width 1, 2, 4 or 8 bytes.
    Int(u8),
}

/// Everything that can go wrong while decoding a TASR stream.
#[derive(Clone, Copy, Debug, PartialEq, Eq, Structural)]
pub enum TaserError {
    /// The stream does not begin with the 4-byte marker `TASR`.
    BadMagic,
    /// A version field is not two ASCII decimal digits.
    BadVersion,
    /// A header record carries an unknown type tag, or an integer width
    /// outside {1, 2, 4, 8}.
    UnknownFieldType,
    /// A header name is not valid UTF-8.
    BadHeaderName,
    /// More header records arrived than the declared header count (fatal:
    /// the stream framing is no longer trustworthy).
    SchemaOverrun,
    /// A string field holds bytes that are not valid UTF-8.
    InvalidUtf8,
    /// An inline variable string declares a length of 16 or more, which
    /// cannot fit its 16-byte slot.
    InlineLengthOverflow,
    /// A variable-string reference reaches past the end of the blob region.
    BlobBoundsError,
    /// A decoded row did not yield exactly one value per header (internal
    /// invariant violation).
    FieldCountMismatch,
    /// The stream ended while more bytes were still required.
    IncompleteStream,
}

/// The stream's format version, parsed from four ASCII digits and carried for
/// diagnostics only.
#[derive(Clone, Copy, Debug, PartialEq, Eq, Structural)]
pub struct TaserVersion {
    pub major: u32,
    pub minor: u32,
}

/// A variable-length string slot: either still an (offset, length) reference
/// into the row's blob region, or already resolved to its payload.
#[derive(Debug, PartialEq, Eq)]
pub enum VarStr {
    /// Unresolved reference: byte range `[offset, offset + length)` of the
    /// row's blob region.
    Position { offset: u64, length: u64 },
    /// The payload itself.
    Collected(String),
}

/// One decoded field value; the variant always matches the header's declared
/// type.
#[derive(Debug, PartialEq, Eq)]
pub enum TaserValue {
    FixedStr(String),
    VarStr(VarStr),
    UInt { width: u8, value: u64 },
    Int { width: u8, value: i64 },
}

/// One schema entry: a field name (at most 16 bytes, NUL-trimmed) and the
/// field's type.
#[derive(Debug, PartialEq, Eq)]
pub struct TaserHeader {
    pub name: String,
    pub ttype: TaserType,
}

/// One decoded row: one value per header, in header order.
#[derive(Debug, PartialEq, Eq)]
pub struct TaserRow {
    pub fields: Vec<TaserValue>,
}

/// Ghost model of a [`VarStr`]: strings become character sequences.
pub enum VarStrModel {
    Position { offset: u64, length: u64 },
    Collected(Seq<char>),
}

/// Ghost model of a [`TaserValue`].
pub enum TaserValueModel {
    FixedStr(Seq<char>),
    VarStr(VarStrModel),
    UInt { width: u8, value: u64 },
    Int { width: u8, value: i64 },
}

/// Ghost model of a [`TaserHeader`].
pub struct HeaderModel {
    pub name: Seq<char>,
    pub ttype: TaserType,
}

impl View for VarStr {
    type V = VarStrModel;

    open spec fn view(&self) -> VarStrModel {
        match self {
            VarStr::Position { offset, length } => VarStrModel::Position {
                offset: *offset,
                length: *length,
            },
            VarStr::Collected(s) => VarStrModel::Collected(s@),
        }
    }
}

impl View for TaserValue {
    type V = TaserValueModel;

    open spec fn view(&self) -> TaserValueModel {
        match self {
            TaserValue::FixedStr(s) => TaserValueModel::FixedStr(s@),
            TaserValue::VarStr(v) => TaserValueModel::VarStr(v@),
            TaserValue::UInt { width, value } => TaserValueModel::UInt {
                width: *width,
                value: *value,
            },
            TaserValue::Int { width, value } => TaserValueModel::Int {
                width: *width,
                value: *value,
            },
        }
    }
}

impl View for TaserHeader {
    type V = HeaderModel;

    open spec fn view(&self) -> HeaderModel {
        HeaderModel { name: self.name@, ttype: self.ttype }
    }
}

impl View for TaserRow {
    type V = Seq<TaserValueModel>;

    open spec fn view(&self) -> Seq<TaserValueModel> {
        self.fields@.map(|i: int, v: TaserValue| v@)
    }
}

/// The ghost view of a header slice.
pub open spec fn headers_view(hs: Seq<TaserHeader>) -> Seq<HeaderModel> {
    hs.map(|i: int, h: TaserHeader| h@)
}

/// The ghost view of a row sequence.
pub open spec fn rows_view(rs: Seq<TaserRow>) -> Seq<Seq<TaserValueModel>> {
    rs.map(|i: int, r: TaserRow| r@)
}

/// A well-formed field type: fixed strings have a positive width and integer
/// widths are one of 1, 2, 4, 8 bytes (anything else is rejected at schema
/// time).
pub open spec fn type_wf(t: TaserType) -> bool {
    match t {
        TaserType::FixedStr(n) => n > 0,
        TaserType::VarStr => true,
        TaserType::UInt(w) => w == 1 || w == 2 || w == 4 || w == 8,
        TaserType::Int(w) => w == 1 || w == 2 || w == 4 || w == 8,
    }
}

/// How many bytes of the row's fixed-width region a field of this type
/// occupies.  A variable string always occupies exactly 16 bytes there; its
/// real payload, if blob-referenced, lives after the fixed-width region.
pub open spec fn field_width(t: TaserType) -> int {
    match t {
        TaserType::FixedStr(n) => n as int,
        TaserType::VarStr => 16,
        TaserType::UInt(w) => w as int,
        TaserType::Int(w) => w as int,
    }
}

/// The byte width of a row's fixed-width region: the sum of its headers'
/// field widths.
pub open spec fn row_width_of(hs: Seq<HeaderModel>) -> int
    decreases hs.len(),
{
    if hs.len() == 0 {
        0
    } else {
        field_width(hs[0].ttype) + row_width_of(hs.drop_first())
    }
}

/// Well-formedness of the viewed headers carries over to the header slice
/// itself (a header's view keeps its field type).
pub proof fn lemma_headers_view_type_wf(hs: Seq<TaserHeader>)
    requires
        forall|i: int| 0 <= i < headers_view(hs).len() ==> type_wf(
            #[trigger] headers_view(hs)[i].ttype,
        ),
    ensures
        forall|i: int| 0 <= i < hs.len() ==> type_wf(#[trigger] hs[i].ttype),
{
    assert forall|i: int| 0 <= i < hs.len() implies type_wf(#[trigger] hs[i].ttype) by {
        assert(headers_view(hs)[i] == hs[i]@);
        assert(type_wf(headers_view(hs)[i].ttype));
    }
}

/// Splitting a schema splits its row width: the width of the whole is the
/// width of the first `i` headers plus the width of the rest.
pub proof fn lemma_row_width_split(hs: Seq<HeaderModel>, i: int)
    requires
        0 <= i <= hs.len(),
    ensures
        row_width_of(hs) == row_width_of(hs.take(i)) + row_width_of(hs.skip(i)),
    decreases i,
{
    if i == 0 {
        assert(hs.take(0).len() == 0);
        assert(hs.skip(0) =~= hs);
    } else {
        lemma_row_width_split(hs.drop_first(), i - 1);
        assert(hs.take(i)[0] == hs[0]);
        assert(hs.take(i).drop_first() =~= hs.drop_first().take(i - 1));
        assert(hs.skip(i) =~= hs.drop_first().skip(i - 1));
    }
}

/// Taking one more header adds exactly that header's field width.
pub proof fn lemma_row_width_take_succ(hs: Seq<HeaderModel>, i: int)
    requires
        0 <= i < hs.len(),
    ensures
        row_width_of(hs.take(i + 1)) == row_width_of(hs.take(i)) + field_width(hs[i].ttype),
    decreases i,
{
    if i == 0 {
        assert(hs.take(1)[0] == hs[0]);
        assert(hs.take(1).drop_first() =~= hs.take(0));
        assert(hs.take(0).len() == 0);
    } else {
        lemma_row_width_take_succ(hs.drop_first(), i - 1);
        assert(hs.take(i + 1)[0] == hs[0]);
        assert(hs.take(i)[0] == hs[0]);
        assert(hs.take(i + 1).drop_first() =~= hs.drop_first().take(i));
        assert(hs.take(i).drop_first() =~= hs.drop_first().take(i - 1));
        assert(hs.drop_first()[i - 1] == hs[i]);
    }
}

/// A row width is never negative, and well-formed headers bound it by
/// `0xffff_ffff` bytes per header (the largest fixed-string width).
pub proof fn lemma_row_width_bound(hs: Seq<HeaderModel>)
    ensures
        row_width_of(hs) >= 0,
        (forall|i: int| 0 <= i < hs.len() ==> type_wf(#[trigger] hs[i].ttype)) ==> row_width_of(
            hs,
        ) <= hs.len() * 0xffff_ffff,
    decreases hs.len(),
{
    if hs.len() > 0 {
        lemma_row_width_bound(hs.drop_first());
        assert(field_width(hs[0].ttype) >= 0);
        if forall|i: int| 0 <= i < hs.len() ==> type_wf(#[trigger] hs[i].ttype) {
            assert forall|i: int| 0 <= i < hs.drop_first().len() implies type_wf(
                #[trigger] hs.drop_first()[i].ttype,
            ) by {
                assert(hs.drop_first()[i] == hs[i + 1]);
            }
            assert(type_wf(hs[0].ttype));
            assert(field_width(hs[0].ttype) <= 0xffff_ffff);
            assert((hs.len() - 1) * 0xffff_ffff + 0xffff_ffff == hs.len() * 0xffff_ffff)
                by (nonlinear_arith);
        }
    }
}

/// A non-empty well-formed schema describes rows of at least one byte.
pub proof fn lemma_row_width_pos(hs: Seq<HeaderModel>)
    requires
        hs.len() >= 1,
        forall|i: int| 0 <= i < hs.len() ==> type_wf(#[trigger] hs[i].ttype),
    ensures
        row_width_of(hs) >= 1,
{
    lemma_row_width_bound(hs.drop_first());
    assert(field_width(hs[0].ttype) >= 1);
}

/// Whether a value's variant matches a declared field type.
pub open spec fn value_matches_type(t: TaserType, v: TaserValueModel) -> bool {
    match t {
        TaserType::FixedStr(_) => v is FixedStr,
        TaserType::VarStr => v is VarStr,
        TaserType::UInt(w) => v matches TaserValueModel::UInt { width, .. } && width == w,
        TaserType::Int(w) => v matches TaserValueModel::Int { width, .. } && width == w,
    }
}

/// A row shaped by a schema: exactly one value per header, each variant
/// matching its header's declared type.
pub open spec fn row_matches(hs: Seq<HeaderModel>, row: Seq<TaserValueModel>) -> bool {
    &&& row.len() == hs.len()
    &&& forall|i: int| 0 <= i < hs.len() ==> value_matches_type(hs[i].ttype, #[trigger] row[i])
}

/// A row with no unresolved variable-string references left; only such rows
/// may be handed to the row sink.
pub open spec fn row_resolved(row: Seq<TaserValueModel>) -> bool {
    forall|i: int| 0 <= i < row.len() ==> !(#[trigger] row[i] matches TaserValueModel::VarStr(
        VarStrModel::Position { .. },
    ))
}

} // verus!
