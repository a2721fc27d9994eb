//! The decode driver: schema parsing (magic, version, header count, header
//! records) and the resumable state machine that turns a chunked byte stream
//! into rows.
//!
//! Every step of the machine is specified by [`spec_step`], a pure function
//! from the machine's model and the currently buffered window to what the
//! step does: stall for more bytes, advance (possibly emitting a row), abort
//! with an error, or report completion.

use vstd::prelude::*;

verus! {

use vstd::bytes::{spec_u32_from_le_bytes, u32_from_le_bytes};
use vstd::slice::{slice_index_get, slice_subrange};
use vstd::utf8::{decode_utf8, valid_utf8};

use crate::rowconsumer::{
    blob_size_of, decode_row_spec, lemma_blob_size_ge, lemma_decode_row_matches,
    lemma_resolve_matches, resolve_fields_spec, resolve_row, row_blob_size, single_row_parser,
};
use crate::types::{
    headers_view, lemma_row_width_bound, lemma_row_width_pos, lemma_row_width_take_succ,
    row_matches, row_resolved, row_width_of, type_wf, HeaderModel, TaserError, TaserHeader,
    TaserRow, TaserType, TaserValueModel, TaserVersion,
};
use crate::util::trim_nuls;
use crate::util::trimmed_utf8;

/// The driver's control state.  `Failed` is absorbing: once a parse error
/// occurred, no further progress is made and the error is reported again on
/// every step.
#[derive(Clone, Copy, Debug, PartialEq, Eq, Structural)]
pub enum DecodeState {
    /// Waiting for magic, version and header count (12 bytes, as one unit).
    Beginning,
    /// Waiting for the next 28-byte header record.
    Headers,
    /// Waiting for the next row's fixed-width region.
    Rows,
    /// Waiting for the current row's blob region.
    RowBlobs,
    /// The stream ended cleanly.
    End,
    /// A parse error stopped the decode session.
    Failed(TaserError),
}

/// What one call of [`TaserConsumer::consume`] reports.
#[derive(Debug, PartialEq, Eq)]
pub enum ConsumerState {
    /// `consumed` leading bytes of the window were fully processed and may be
    /// discarded; the next step needs at least `needed` buffered bytes.
    Await { consumed: usize, needed: u64 },
    /// As `Await`, and a fully resolved row is ready for the sink.
    RowReady { consumed: usize, needed: u64, row: TaserRow },
    /// Decoding failed; the session is over.
    ConsumerError(TaserError),
    /// The stream ended cleanly; nothing more will be produced.
    ConsumerDone,
}

/// Ghost model of a [`TaserConsumer`].
pub struct ConsumerModel {
    pub state: DecodeState,
    pub version: TaserVersion,
    pub header_count: u32,
    pub headers: Seq<HeaderModel>,
    pub row_length: u64,
    pub current_row: Option<Seq<TaserValueModel>>,
    pub blob_length: u64,
}

impl ConsumerModel {
    /// The schema phase is over: exactly the declared number of headers was
    /// read and the row width was computed from them.
    pub open spec fn schema_done(self) -> bool {
        &&& self.headers.len() == self.header_count
        &&& self.header_count >= 1
        &&& self.row_length as int == row_width_of(self.headers)
        &&& self.row_length >= 1
    }

    /// The machine's invariant, preserved by every step.
    pub open spec fn wf(self) -> bool {
        &&& forall|i: int| 0 <= i < self.headers.len() ==> type_wf(#[trigger] self.headers[i].ttype)
        &&& match self.state {
            DecodeState::Beginning => self.headers.len() == 0 && self.current_row is None,
            DecodeState::Headers => (self.headers.len() < self.header_count || (self.header_count
                == 0 && self.headers.len() == 0)) && self.current_row is None,
            DecodeState::Rows => self.schema_done() && self.current_row is None,
            DecodeState::RowBlobs => {
                &&& self.schema_done()
                &&& match self.current_row {
                    Some(f) => row_matches(self.headers, f) && self.blob_length as int
                        == blob_size_of(f),
                    None => false,
                }
            },
            DecodeState::End => self.current_row is None,
            DecodeState::Failed(_) => true,
        }
    }
}

/// The machine's model before any byte was consumed.
pub open spec fn init_model() -> ConsumerModel {
    ConsumerModel {
        state: DecodeState::Beginning,
        version: TaserVersion { major: 0, minor: 0 },
        header_count: 0,
        headers: Seq::empty(),
        row_length: 0,
        current_row: None,
        blob_length: 0,
    }
}

/// How many buffered bytes the machine's next step needs before it can make
/// progress.
pub open spec fn needed_of(m: ConsumerModel) -> int {
    match m.state {
        DecodeState::Beginning => 12,
        DecodeState::Headers => 28,
        DecodeState::Rows => m.row_length as int,
        DecodeState::RowBlobs => m.blob_length as int,
        DecodeState::End => 0,
        DecodeState::Failed(_) => 0,
    }
}

/// The first four bytes are the ASCII marker `TASR`.
pub open spec fn magic_ok(b: Seq<u8>) -> bool {
    b[0] == 0x54 && b[1] == 0x41 && b[2] == 0x53 && b[3] == 0x52
}

/// An ASCII decimal digit.
pub open spec fn is_ascii_digit(x: u8) -> bool {
    0x30 <= x <= 0x39
}

/// Bytes 4 to 7 are four ASCII decimal digits.
pub open spec fn version_ok(b: Seq<u8>) -> bool {
    is_ascii_digit(b[4]) && is_ascii_digit(b[5]) && is_ascii_digit(b[6]) && is_ascii_digit(b[7])
}

/// The value of two ASCII decimal digits.
pub open spec fn two_digits(a: u8, b: u8) -> u32
    recommends
        is_ascii_digit(a),
        is_ascii_digit(b),
{
    ((a - 0x30) * 10 + (b - 0x30)) as u32
}

/// What the 12-byte preamble denotes: the magic marker checked, the version
/// from four ASCII digits, the header count as a little-endian `u32`.
pub open spec fn preamble_spec(b: Seq<u8>) -> Result<(TaserVersion, u32), TaserError>
    recommends
        b.len() >= 12,
{
    if !magic_ok(b) {
        Err(TaserError::BadMagic)
    } else if !version_ok(b) {
        Err(TaserError::BadVersion)
    } else {
        Ok(
            (
                TaserVersion { major: two_digits(b[4], b[5]), minor: two_digits(b[6], b[7]) },
                spec_u32_from_le_bytes(b.subrange(8, 12)),
            ),
        )
    }
}

/// Bytes 20 to 23 are the given ASCII type tag.
pub open spec fn tag_is(b: Seq<u8>, c0: u8, c1: u8, c2: u8, c3: u8) -> bool {
    b[20] == c0 && b[21] == c1 && b[22] == c2 && b[23] == c3
}

/// What one 28-byte header record denotes: 16 bytes of NUL-padded UTF-8
/// name, 4 reserved bytes, a 4-byte ASCII type tag (`STRN`, `UINT` or
/// `IINT`) and a 4-byte little-endian type parameter.  `STRN` with parameter
/// 0 is a variable string, with a nonzero parameter a fixed string of that
/// width; integer widths outside {1, 2, 4, 8} are unknown field types.
pub open spec fn header_spec(b: Seq<u8>) -> Result<HeaderModel, TaserError>
    recommends
        b.len() >= 28,
{
    let name_bytes = trim_nuls(b.subrange(0, 16));
    if !valid_utf8(name_bytes) {
        Err(TaserError::BadHeaderName)
    } else {
        let name = decode_utf8(name_bytes);
        let param = spec_u32_from_le_bytes(b.subrange(24, 28));
        if tag_is(b, 0x53, 0x54, 0x52, 0x4e) {
            if param == 0 {
                Ok(HeaderModel { name, ttype: TaserType::VarStr })
            } else {
                Ok(HeaderModel { name, ttype: TaserType::FixedStr(param) })
            }
        } else if tag_is(b, 0x55, 0x49, 0x4e, 0x54) {
            if param == 1 || param == 2 || param == 4 || param == 8 {
                Ok(HeaderModel { name, ttype: TaserType::UInt(param as u8) })
            } else {
                Err(TaserError::UnknownFieldType)
            }
        } else if tag_is(b, 0x49, 0x49, 0x4e, 0x54) {
            if param == 1 || param == 2 || param == 4 || param == 8 {
                Ok(HeaderModel { name, ttype: TaserType::Int(param as u8) })
            } else {
                Err(TaserError::UnknownFieldType)
            }
        } else {
            Err(TaserError::UnknownFieldType)
        }
    }
}

/// Parse the 12-byte preamble from the front of `input`.
pub fn preamble_parser(input: &[u8]) -> (r: Result<(TaserVersion, u32), TaserError>)
    requires
        input@.len() >= 12,
    ensures
        match r {
            Ok(v) => preamble_spec(input@) == Ok::<(TaserVersion, u32), TaserError>(v),
            Err(e) => preamble_spec(input@) == Err::<(TaserVersion, u32), TaserError>(e),
        },
{
    let b0 = *slice_index_get(input, 0);
    let b1 = *slice_index_get(input, 1);
    let b2 = *slice_index_get(input, 2);
    let b3 = *slice_index_get(input, 3);
    if !(b0 == 0x54 && b1 == 0x41 && b2 == 0x53 && b3 == 0x52) {
        return Err(TaserError::BadMagic);
    }
    let d0 = *slice_index_get(input, 4);
    let d1 = *slice_index_get(input, 5);
    let d2 = *slice_index_get(input, 6);
    let d3 = *slice_index_get(input, 7);
    if !(0x30 <= d0 && d0 <= 0x39 && 0x30 <= d1 && d1 <= 0x39 && 0x30 <= d2 && d2 <= 0x39 && 0x30
        <= d3 && d3 <= 0x39) {
        return Err(TaserError::BadVersion);
    }
    let major: u32 = ((d0 - 0x30) as u32) * 10 + (d1 - 0x30) as u32;
    let minor: u32 = ((d2 - 0x30) as u32) * 10 + (d3 - 0x30) as u32;
    let header_count = u32_from_le_bytes(slice_subrange(input, 8, 12));
    Ok((TaserVersion { major, minor }, header_count))
}

/// Parse one 28-byte header record from the front of `input`.
pub fn single_header_parser(input: &[u8]) -> (r: Result<TaserHeader, TaserError>)
    requires
        input@.len() >= 28,
    ensures
        match r {
            Ok(h) => header_spec(input@) == Ok::<HeaderModel, TaserError>(h@),
            Err(e) => header_spec(input@) == Err::<HeaderModel, TaserError>(e),
        },
{
    let name = match trimmed_utf8(slice_subrange(input, 0, 16)) {
        Some(s) => s,
        None => {
            return Err(TaserError::BadHeaderName);
        },
    };
    let t0 = *slice_index_get(input, 20);
    let t1 = *slice_index_get(input, 21);
    let t2 = *slice_index_get(input, 22);
    let t3 = *slice_index_get(input, 23);
    let param = u32_from_le_bytes(slice_subrange(input, 24, 28));
    if t0 == 0x53 && t1 == 0x54 && t2 == 0x52 && t3 == 0x4e {
        if param == 0 {
            Ok(TaserHeader { name, ttype: TaserType::VarStr })
        } else {
            Ok(TaserHeader { name, ttype: TaserType::FixedStr(param) })
        }
    } else if t0 == 0x55 && t1 == 0x49 && t2 == 0x4e && t3 == 0x54 {
        if param == 1 || param == 2 || param == 4 || param == 8 {
            Ok(TaserHeader { name, ttype: TaserType::UInt(param as u8) })
        } else {
            Err(TaserError::UnknownFieldType)
        }
    } else if t0 == 0x49 && t1 == 0x49 && t2 == 0x4e && t3 == 0x54 {
        if param == 1 || param == 2 || param == 4 || param == 8 {
            Ok(TaserHeader { name, ttype: TaserType::Int(param as u8) })
        } else {
            Err(TaserError::UnknownFieldType)
        }
    } else {
        Err(TaserError::UnknownFieldType)
    }
}

/// The model with its state replaced by `Failed(e)` and everything else
/// kept.
pub open spec fn fail_with(m: ConsumerModel, e: TaserError) -> ConsumerModel {
    ConsumerModel { state: DecodeState::Failed(e), ..m }
}

/// What one step of the machine does, given its model and the buffered
/// window.
pub enum SpecStep {
    /// The window is shorter than the step needs; nothing changes.
    Stall,
    /// The machine advances, consuming `consumed` leading bytes of the
    /// window and possibly emitting a row.
    Step { post: ConsumerModel, consumed: int, row: Option<Seq<TaserValueModel>> },
    /// A parse error; the machine moves to (or stays in) `Failed(err)`.
    Abort { post: ConsumerModel, err: TaserError },
    /// The stream already ended cleanly.
    Done,
}

/// The machine's transition function: a pure function from model and window
/// to what [`TaserConsumer::consume`] does.  It reads only the first
/// `needed_of(m)` bytes of the window.
pub open spec fn spec_step(m: ConsumerModel, w: Seq<u8>) -> SpecStep {
    match m.state {
        DecodeState::End => SpecStep::Done,
        DecodeState::Failed(e) => SpecStep::Abort { post: m, err: e },
        _ => {
            if w.len() < needed_of(m) {
                SpecStep::Stall
            } else {
                match m.state {
                    DecodeState::Beginning => match preamble_spec(w) {
                        Err(e) => SpecStep::Abort { post: fail_with(m, e), err: e },
                        Ok((v, c)) => SpecStep::Step {
                            post: ConsumerModel {
                                state: DecodeState::Headers,
                                version: v,
                                header_count: c,
                                ..m
                            },
                            consumed: 12,
                            row: None,
                        },
                    },
                    DecodeState::Headers => match header_spec(w) {
                        Err(e) => SpecStep::Abort { post: fail_with(m, e), err: e },
                        Ok(h) => {
                            let hs2 = m.headers.push(h);
                            if hs2.len() > m.header_count {
                                SpecStep::Abort {
                                    post: ConsumerModel {
                                        state: DecodeState::Failed(TaserError::SchemaOverrun),
                                        headers: hs2,
                                        ..m
                                    },
                                    err: TaserError::SchemaOverrun,
                                }
                            } else if hs2.len() == m.header_count {
                                SpecStep::Step {
                                    post: ConsumerModel {
                                        state: DecodeState::Rows,
                                        headers: hs2,
                                        row_length: row_width_of(hs2) as u64,
                                        ..m
                                    },
                                    consumed: 28,
                                    row: None,
                                }
                            } else {
                                SpecStep::Step {
                                    post: ConsumerModel { headers: hs2, ..m },
                                    consumed: 28,
                                    row: None,
                                }
                            }
                        },
                    },
                    DecodeState::Rows => match decode_row_spec(
                        m.headers,
                        w.subrange(0, m.row_length as int),
                    ) {
                        Err(e) => SpecStep::Abort { post: fail_with(m, e), err: e },
                        Ok(fields) => {
                            if blob_size_of(fields) > u64::MAX {
                                SpecStep::Abort {
                                    post: fail_with(m, TaserError::BlobBoundsError),
                                    err: TaserError::BlobBoundsError,
                                }
                            } else {
                                SpecStep::Step {
                                    post: ConsumerModel {
                                        state: DecodeState::RowBlobs,
                                        current_row: Some(fields),
                                        blob_length: blob_size_of(fields) as u64,
                                        ..m
                                    },
                                    consumed: m.row_length as int,
                                    row: None,
                                }
                            }
                        },
                    },
                    _ => match resolve_fields_spec(
                        m.current_row.unwrap(),
                        w.subrange(0, m.blob_length as int),
                    ) {
                        Err(e) => SpecStep::Abort {
                            post: ConsumerModel {
                                state: DecodeState::Failed(e),
                                current_row: None,
                                ..m
                            },
                            err: e,
                        },
                        Ok(res) => SpecStep::Step {
                            post: ConsumerModel {
                                state: DecodeState::Rows,
                                current_row: None,
                                blob_length: 0,
                                ..m
                            },
                            consumed: m.blob_length as int,
                            row: Some(res),
                        },
                    },
                }
            }
        },
    }
}

/// A rank that decreases on the one step that may consume no bytes (leaving
/// `RowBlobs` for `Rows` when the blob region is empty); used to show the
/// machine cannot loop without consuming input.
pub open spec fn state_rank(s: DecodeState) -> int {
    match s {
        DecodeState::Beginning => 3,
        DecodeState::Headers => 2,
        DecodeState::Rows => 0,
        DecodeState::RowBlobs => 1,
        DecodeState::End => 0,
        DecodeState::Failed(_) => 0,
    }
}

/// Every step from a well-formed model yields a well-formed model, consumes
/// no more than the window holds, makes progress (consumes bytes or lowers
/// the rank), and emits only fully resolved rows that match the schema.
pub proof fn lemma_spec_step_wf(m: ConsumerModel, w: Seq<u8>)
    requires
        m.wf(),
    ensures
        match spec_step(m, w) {
            SpecStep::Stall => w.len() < needed_of(m),
            SpecStep::Step { post, consumed, row } => {
                &&& post.wf()
                &&& 0 <= consumed <= w.len()
                &&& consumed > 0 || state_rank(post.state) < state_rank(m.state)
                &&& 0 <= needed_of(post) <= u64::MAX
                &&& match row {
                    None => true,
                    Some(rm) => {
                        &&& rm.len() == post.header_count
                        &&& row_resolved(rm)
                        &&& row_matches(post.headers, rm)
                    },
                }
            },
            SpecStep::Abort { post, err } => post.wf() && post.state == DecodeState::Failed(err),
            SpecStep::Done => m.state == DecodeState::End,
        },
{
    match m.state {
        DecodeState::End => {},
        DecodeState::Failed(_) => {},
        _ => {
            if w.len() >= needed_of(m) {
                match m.state {
                    DecodeState::Beginning => {},
                    DecodeState::Headers => {
                        if header_spec(w) is Ok {
                            let h = header_spec(w)->Ok_0;
                            let hs2 = m.headers.push(h);
                            assert(type_wf(h.ttype));
                            assert forall|i: int| 0 <= i < hs2.len() implies type_wf(
                                #[trigger] hs2[i].ttype,
                            ) by {
                                if i < m.headers.len() {
                                    assert(hs2[i] == m.headers[i]);
                                } else {
                                    assert(hs2[i] == h);
                                }
                            }
                            if hs2.len() == m.header_count {
                                lemma_row_width_bound(hs2);
                                lemma_row_width_pos(hs2);
                                assert(hs2.len() * 0xffff_ffff <= 0xffff_ffff * 0xffff_ffff);
                            }
                        }
                    },
                    DecodeState::Rows => {
                        let bs = w.subrange(0, m.row_length as int);
                        lemma_decode_row_matches(m.headers, bs);
                        if decode_row_spec(m.headers, bs) is Ok {
                            lemma_blob_size_ge(decode_row_spec(m.headers, bs)->Ok_0);
                        }
                    },
                    _ => {
                        let f = m.current_row.unwrap();
                        let blob = w.subrange(0, m.blob_length as int);
                        if resolve_fields_spec(f, blob) is Ok {
                            lemma_resolve_matches(m.headers, f, blob);
                        }
                    },
                }
            }
        },
    }
}

/// What one call of [`TaserConsumer::consume`] guarantees, as a relation
/// between the machine models before and after the call, the window it was
/// given, and what it returned.
pub open spec fn consume_post(
    pre: ConsumerModel,
    w: Seq<u8>,
    post: ConsumerModel,
    r: ConsumerState,
) -> bool {
    match spec_step(pre, w) {
        SpecStep::Stall => {
            &&& post == pre
            &&& r matches ConsumerState::Await { consumed, needed } && consumed == 0
                && needed as int == needed_of(pre)
        },
        SpecStep::Step { post: p2, consumed: c, row: rowm } => {
            &&& post == p2
            &&& match rowm {
                None => r matches ConsumerState::Await { consumed, needed } && consumed as int == c
                    && needed as int == needed_of(p2),
                Some(rm) => r matches ConsumerState::RowReady { consumed, needed, row }
                    && consumed as int == c && needed as int == needed_of(p2) && row@ == rm,
            }
        },
        SpecStep::Abort { post: p2, err } => {
            &&& post == p2
            &&& r matches ConsumerState::ConsumerError(e) && e == err
        },
        SpecStep::Done => {
            &&& post == pre
            &&& r is ConsumerDone
        },
    }
}

/// The resumable TASR decoder.  Feed it the buffered window with
/// [`consume`](TaserConsumer::consume) whenever at least the requested
/// number of bytes is available, and signal end of stream with
/// [`end`](TaserConsumer::end).
pub struct TaserConsumer {
    state: DecodeState,
    version: TaserVersion,
    header_count: u32,
    headers: Vec<TaserHeader>,
    row_length: u64,
    current_row: Option<TaserRow>,
    blob_length: u64,
}

impl View for TaserConsumer {
    type V = ConsumerModel;

    closed spec fn view(&self) -> ConsumerModel {
        ConsumerModel {
            state: self.state,
            version: self.version,
            header_count: self.header_count,
            headers: headers_view(self.headers@),
            row_length: self.row_length,
            current_row: match self.current_row {
                Some(r) => Some(r@),
                None => None,
            },
            blob_length: self.blob_length,
        }
    }
}

/// The row width of a schema, computed by summing the headers' field widths.
fn compute_row_length(headers: &Vec<TaserHeader>) -> (r: u64)
    requires
        forall|i: int| 0 <= i < headers@.len() ==> type_wf(#[trigger] headers@[i].ttype),
        headers@.len() <= 0xffff_ffff,
    ensures
        r as int == row_width_of(headers_view(headers@)),
{
    let ghost hv = headers_view(headers@);
    let mut acc: u64 = 0;
    let mut i: usize = 0;
    proof {
        assert(hv.take(0).len() == 0);
    }
    while i < headers.len()
        invariant
            forall|k: int| 0 <= k < headers@.len() ==> type_wf(#[trigger] headers@[k].ttype),
            headers@.len() <= 0xffff_ffff,
            hv == headers_view(headers@),
            i <= headers@.len(),
            acc as int == row_width_of(hv.take(i as int)),
            acc as int <= i * 0xffff_ffff,
        decreases headers@.len() - i,
    {
        proof {
            lemma_row_width_take_succ(hv, i as int);
            assert(hv[i as int] == headers@[i as int]@);
        }
        let w: u64 = match &headers[i].ttype {
            TaserType::FixedStr(n) => *n as u64,
            TaserType::VarStr => 16,
            TaserType::UInt(wd) => *wd as u64,
            TaserType::Int(wd) => *wd as u64,
        };
        acc = acc + w;
        i = i + 1;
    }
    proof {
        assert(hv.take(i as int) =~= hv);
    }
    acc
}

impl TaserConsumer {
    /// A fresh decoder, about to read the stream's preamble.
    pub fn new() -> (c: TaserConsumer)
        ensures
            c@ == init_model(),
            c@.wf(),
    {
        let c = TaserConsumer {
            state: DecodeState::Beginning,
            version: TaserVersion { major: 0, minor: 0 },
            header_count: 0,
            headers: Vec::new(),
            row_length: 0,
            current_row: None,
            blob_length: 0,
        };
        proof {
            assert(headers_view(c.headers@) =~= Seq::<HeaderModel>::empty());
        }
        c
    }

    /// The driver's control state, for observation.
    pub fn state(&self) -> (s: DecodeState)
        ensures
            s == self@.state,
    {
        self.state
    }

    /// The parsed format version (meaningful once the preamble was read).
    pub fn version(&self) -> (v: TaserVersion)
        ensures
            v == self@.version,
    {
        self.version
    }

    /// The declared header count (meaningful once the preamble was read).
    pub fn header_count(&self) -> (c: u32)
        ensures
            c == self@.header_count,
    {
        self.header_count
    }

    /// Run one step of the machine against the currently buffered window.
    /// The result says how many leading bytes of the window were consumed
    /// and how many buffered bytes the next step needs; the caller discards
    /// the consumed bytes and calls again once enough are available.
    pub fn consume(&mut self, input: &[u8]) -> (r: ConsumerState)
        requires
            old(self)@.wf(),
        ensures
            final(self)@.wf(),
            consume_post(old(self)@, input@, final(self)@, r),
    {
        proof {
            lemma_spec_step_wf(self@, input@);
        }
        match self.state {
            DecodeState::End => ConsumerState::ConsumerDone,
            DecodeState::Failed(e) => ConsumerState::ConsumerError(e),
            DecodeState::Beginning => {
                if input.len() < 12 {
                    ConsumerState::Await { consumed: 0, needed: 12 }
                } else {
                    match preamble_parser(input) {
                        Err(e) => {
                            self.state = DecodeState::Failed(e);
                            ConsumerState::ConsumerError(e)
                        },
                        Ok((v, c)) => {
                            self.version = v;
                            self.header_count = c;
                            self.state = DecodeState::Headers;
                            ConsumerState::Await { consumed: 12, needed: 28 }
                        },
                    }
                }
            },
            DecodeState::Headers => {
                if input.len() < 28 {
                    ConsumerState::Await { consumed: 0, needed: 28 }
                } else {
                    match single_header_parser(input) {
                        Err(e) => {
                            self.state = DecodeState::Failed(e);
                            ConsumerState::ConsumerError(e)
                        },
                        Ok(h) => {
                            let ghost pre_headers = headers_view(self.headers@);
                            let ghost hm = h@;
                            self.headers.push(h);
                            proof {
                                assert(headers_view(self.headers@) =~= pre_headers.push(hm));
                            }
                            if self.headers.len() > self.header_count as usize {
                                self.state = DecodeState::Failed(TaserError::SchemaOverrun);
                                ConsumerState::ConsumerError(TaserError::SchemaOverrun)
                            } else if self.headers.len() == self.header_count as usize {
                                proof {
                                    crate::types::lemma_headers_view_type_wf(self.headers@);
                                }
                                let rl = compute_row_length(&self.headers);
                                self.row_length = rl;
                                self.state = DecodeState::Rows;
                                ConsumerState::Await { consumed: 28, needed: rl }
                            } else {
                                ConsumerState::Await { consumed: 28, needed: 28 }
                            }
                        },
                    }
                }
            },
            DecodeState::Rows => {
                if (input.len() as u64) < self.row_length {
                    ConsumerState::Await { consumed: 0, needed: self.row_length }
                } else {
                    let rl = self.row_length as usize;
                    proof {
                        crate::types::lemma_headers_view_type_wf(self.headers@);
                    }
                    match single_row_parser(input, self.headers.as_slice(), rl) {
                        Err(e) => {
                            self.state = DecodeState::Failed(e);
                            ConsumerState::ConsumerError(e)
                        },
                        Ok(row) => match row_blob_size(&row) {
                            None => {
                                self.state = DecodeState::Failed(TaserError::BlobBoundsError);
                                ConsumerState::ConsumerError(TaserError::BlobBoundsError)
                            },
                            Some(bs) => {
                                self.current_row = Some(row);
                                self.blob_length = bs;
                                self.state = DecodeState::RowBlobs;
                                ConsumerState::Await { consumed: rl, needed: bs }
                            },
                        },
                    }
                }
            },
            DecodeState::RowBlobs => {
                if (input.len() as u64) < self.blob_length {
                    ConsumerState::Await { consumed: 0, needed: self.blob_length }
                } else {
                    let bl = self.blob_length as usize;
                    let row = match self.current_row.take() {
                        Some(r) => r,
                        None => {
                            proof {
                                assert(false);
                            }
                            return ConsumerState::ConsumerError(TaserError::FieldCountMismatch);
                        },
                    };
                    match resolve_row(row, slice_subrange(input, 0, bl)) {
                        Err(e) => {
                            self.state = DecodeState::Failed(e);
                            ConsumerState::ConsumerError(e)
                        },
                        Ok(res) => {
                            self.state = DecodeState::Rows;
                            self.blob_length = 0;
                            ConsumerState::RowReady {
                                consumed: bl,
                                needed: self.row_length,
                                row: res,
                            }
                        },
                    }
                }
            },
        }
    }

    /// Signal end of stream, with how many buffered bytes are still
    /// unconsumed.  Between rows with nothing buffered this is the normal
    /// end; anywhere else the stream ended prematurely.
    pub fn end(&mut self, available: usize) -> (r: Result<(), TaserError>)
        requires
            old(self)@.wf(),
        ensures
            final(self)@.wf(),
            end_post(old(self)@, available as int, final(self)@, r),
    {
        match self.state {
            DecodeState::End => Ok(()),
            DecodeState::Failed(e) => Err(e),
            DecodeState::Rows => {
                if available == 0 {
                    self.state = DecodeState::End;
                    Ok(())
                } else {
                    self.state = DecodeState::Failed(TaserError::IncompleteStream);
                    Err(TaserError::IncompleteStream)
                }
            },
            _ => {
                self.state = DecodeState::Failed(TaserError::IncompleteStream);
                Err(TaserError::IncompleteStream)
            },
        }
    }
}

/// What [`TaserConsumer::end`] guarantees: end of stream between rows with
/// an empty buffer finishes the session; anywhere else it is an incomplete
/// stream; a finished or failed session just reports its outcome again.
pub open spec fn end_post(
    pre: ConsumerModel,
    available: int,
    post: ConsumerModel,
    r: Result<(), TaserError>,
) -> bool {
    match pre.state {
        DecodeState::End => post == pre && r == Ok::<(), TaserError>(()),
        DecodeState::Failed(e) => post == pre && r == Err::<(), TaserError>(e),
        DecodeState::Rows => {
            if available == 0 {
                post == ConsumerModel { state: DecodeState::End, ..pre } && r == Ok::<
                    (),
                    TaserError,
                >(())
            } else {
                post == fail_with(pre, TaserError::IncompleteStream) && r == Err::<
                    (),
                    TaserError,
                >(TaserError::IncompleteStream)
            }
        },
        _ => post == fail_with(pre, TaserError::IncompleteStream) && r == Err::<(), TaserError>(
            TaserError::IncompleteStream,
        ),
    }
}

} // verus!
