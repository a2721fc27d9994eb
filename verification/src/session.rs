//! Driving the decoder over a chunked stream: the ghost semantics of running
//! the machine over a byte sequence, the laws that follow from it (every
//! emitted row matches the schema; chunking does not matter), and the
//! executable session that feeds chunks to the machine.

use vstd::prelude::*;

verus! {

use vstd::seq_lib::*;

use crate::taserconsumer::{
    init_model, lemma_spec_step_wf, needed_of, spec_step, state_rank, ConsumerModel,
    ConsumerState, DecodeState, SpecStep, TaserConsumer,
};
use crate::types::{
    row_matches, row_resolved, rows_view, TaserError, TaserRow, TaserValueModel,
};
use crate::window::ByteWindow;

/// How a run of the machine over a whole window ended.
pub enum RunStatus {
    /// The machine needs more bytes than the window holds.
    Running,
    /// A parse error stopped the run.
    Failed(TaserError),
    /// The machine had already reported a clean end of stream.
    Done,
}

/// The result of running the machine over a window for as long as it can
/// make progress.
pub struct RunResult {
    /// The machine's model when the run stopped.
    pub m: ConsumerModel,
    /// The unconsumed tail of the window.
    pub rest: Seq<u8>,
    /// Every row emitted during the run, in order.
    pub rows: Seq<Seq<TaserValueModel>>,
    /// Why the run stopped.
    pub status: RunStatus,
}

/// A row option as a (zero- or one-element) row sequence.
pub open spec fn opt_row_seq(row: Option<Seq<TaserValueModel>>) -> Seq<Seq<TaserValueModel>> {
    match row {
        Some(r) => seq![r],
        None => Seq::empty(),
    }
}

/// Run the machine over `w`, stepping as long as enough bytes are buffered:
/// the ghost semantics of feeding the decoder a byte sequence.  The guard on
/// the recursive case only rules out steps that a well-formed machine never
/// takes (see [`lemma_spec_step_wf`]).
pub open spec fn machine_run(m: ConsumerModel, w: Seq<u8>) -> RunResult
    decreases w.len(), state_rank(m.state),
{
    match spec_step(m, w) {
        SpecStep::Stall => RunResult { m, rest: w, rows: Seq::empty(), status: RunStatus::Running },
        SpecStep::Done => RunResult { m, rest: w, rows: Seq::empty(), status: RunStatus::Done },
        SpecStep::Abort { post, err } => RunResult {
            m: post,
            rest: w,
            rows: Seq::empty(),
            status: RunStatus::Failed(err),
        },
        SpecStep::Step { post, consumed, row } => {
            if 0 <= consumed <= w.len() && (consumed > 0 || state_rank(post.state) < state_rank(
                m.state,
            )) {
                let r = machine_run(post, w.skip(consumed));
                RunResult {
                    m: r.m,
                    rest: r.rest,
                    rows: opt_row_seq(row) + r.rows,
                    status: r.status,
                }
            } else {
                RunResult { m: post, rest: w, rows: Seq::empty(), status: RunStatus::Running }
            }
        },
    }
}

/// A step reads only the first `needed_of(m)` bytes of the window, so
/// appending bytes after them changes nothing about it.
pub proof fn lemma_spec_step_frame(m: ConsumerModel, w: Seq<u8>, c: Seq<u8>)
    requires
        w.len() >= needed_of(m),
    ensures
        spec_step(m, w + c) == spec_step(m, w),
{
    let wc = w + c;
    match m.state {
        DecodeState::End => {},
        DecodeState::Failed(_) => {},
        DecodeState::Beginning => {
            assert(wc.subrange(8, 12) =~= w.subrange(8, 12));
            assert(crate::taserconsumer::preamble_spec(wc) == crate::taserconsumer::preamble_spec(
                w,
            ));
        },
        DecodeState::Headers => {
            assert(wc.subrange(0, 16) =~= w.subrange(0, 16));
            assert(wc.subrange(24, 28) =~= w.subrange(24, 28));
            assert(crate::taserconsumer::header_spec(wc) == crate::taserconsumer::header_spec(w));
        },
        DecodeState::Rows => {
            assert(wc.subrange(0, m.row_length as int) =~= w.subrange(0, m.row_length as int));
        },
        DecodeState::RowBlobs => {
            assert(wc.subrange(0, m.blob_length as int) =~= w.subrange(0, m.blob_length as int));
        },
    }
}

/// Feeding the machine `w` and then `c` is the same as feeding it `w + c`:
/// the run over the longer window continues exactly where the run over `w`
/// stalled, with the same rows in front.  This is what makes the decoder
/// insensitive to how the stream is cut into chunks.
pub proof fn lemma_machine_run_extend(m: ConsumerModel, w: Seq<u8>, c: Seq<u8>)
    requires
        m.wf(),
    ensures
        ({
            let r1 = machine_run(m, w);
            let r2 = machine_run(m, w + c);
            match r1.status {
                RunStatus::Running => {
                    let rc = machine_run(r1.m, r1.rest + c);
                    &&& r2.m == rc.m
                    &&& r2.rest == rc.rest
                    &&& r2.rows == r1.rows + rc.rows
                    &&& r2.status == rc.status
                },
                _ => {
                    &&& r2.m == r1.m
                    &&& r2.rest == r1.rest + c
                    &&& r2.rows == r1.rows
                    &&& r2.status == r1.status
                },
            }
        }),
    decreases w.len(), state_rank(m.state),
{
    lemma_spec_step_wf(m, w);
    match spec_step(m, w) {
        SpecStep::Stall => {
            assert(Seq::<Seq<TaserValueModel>>::empty() + machine_run(m, w + c).rows
                =~= machine_run(m, w + c).rows);
        },
        SpecStep::Done => {},
        SpecStep::Abort { post, err } => {
            if !(m.state is Failed) {
                lemma_spec_step_frame(m, w, c);
            }
        },
        SpecStep::Step { post, consumed, row } => {
            lemma_spec_step_frame(m, w, c);
            assert((w + c).skip(consumed) =~= w.skip(consumed) + c);
            lemma_machine_run_extend(post, w.skip(consumed), c);
            let ri = machine_run(post, w.skip(consumed));
            match ri.status {
                RunStatus::Running => {
                    let rc = machine_run(ri.m, ri.rest + c);
                    assert(opt_row_seq(row) + (ri.rows + rc.rows) =~= (opt_row_seq(row) + ri.rows)
                        + rc.rows);
                },
                _ => {},
            }
        },
    }
}

/// Once the schema phase is over, the machine's schema never changes again.
pub proof fn lemma_machine_run_stable(m: ConsumerModel, w: Seq<u8>)
    requires
        m.wf(),
        m.state is Rows || m.state is RowBlobs || m.state is End || m.state is Failed,
    ensures
        machine_run(m, w).m.headers == m.headers,
        machine_run(m, w).m.header_count == m.header_count,
    decreases w.len(), state_rank(m.state),
{
    lemma_spec_step_wf(m, w);
    match spec_step(m, w) {
        SpecStep::Step { post, consumed, row } => {
            lemma_machine_run_stable(post, w.skip(consumed));
        },
        _ => {},
    }
}

/// The declared header count never changes after the preamble was read.
pub proof fn lemma_machine_run_count_stable(m: ConsumerModel, w: Seq<u8>)
    requires
        m.wf(),
        !(m.state is Beginning),
    ensures
        machine_run(m, w).m.header_count == m.header_count,
    decreases w.len(), state_rank(m.state),
{
    lemma_spec_step_wf(m, w);
    match spec_step(m, w) {
        SpecStep::Step { post, consumed, row } => {
            lemma_machine_run_count_stable(post, w.skip(consumed));
        },
        _ => {},
    }
}

/// Every row a run emits has exactly `header_count` fields, matches the
/// schema header for header, and carries no unresolved reference.
pub proof fn lemma_machine_run_rows(m: ConsumerModel, w: Seq<u8>)
    requires
        m.wf(),
    ensures
        ({
            let r = machine_run(m, w);
            forall|i: int|
                0 <= i < r.rows.len() ==> {
                    &&& (#[trigger] r.rows[i]).len() == r.m.header_count
                    &&& row_resolved(r.rows[i])
                    &&& row_matches(r.m.headers, r.rows[i])
                }
        }),
    decreases w.len(), state_rank(m.state),
{
    lemma_spec_step_wf(m, w);
    match spec_step(m, w) {
        SpecStep::Step { post, consumed, row } => {
            lemma_machine_run_rows(post, w.skip(consumed));
            let ri = machine_run(post, w.skip(consumed));
            let r = machine_run(m, w);
            match row {
                Some(rm) => {
                    lemma_machine_run_stable(post, w.skip(consumed));
                    assert forall|i: int| 0 <= i < r.rows.len() implies {
                        &&& (#[trigger] r.rows[i]).len() == r.m.header_count
                        &&& row_resolved(r.rows[i])
                        &&& row_matches(r.m.headers, r.rows[i])
                    } by {
                        if i == 0 {
                            assert(r.rows[0] == rm);
                        } else {
                            assert(r.rows[i] == ri.rows[i - 1]);
                        }
                    }
                },
                None => {
                    assert forall|i: int| 0 <= i < r.rows.len() implies {
                        &&& (#[trigger] r.rows[i]).len() == r.m.header_count
                        &&& row_resolved(r.rows[i])
                        &&& row_matches(r.m.headers, r.rows[i])
                    } by {
                        assert(r.rows[i] == ri.rows[i]);
                    }
                },
            }
        },
        _ => {},
    }
}

/// What decoding a complete stream yields: the emitted rows and, unless the
/// stream ended cleanly between rows with nothing buffered, the error that
/// stopped it.
pub open spec fn decode_outcome(b: Seq<u8>) -> (Seq<Seq<TaserValueModel>>, Option<TaserError>) {
    let r = machine_run(init_model(), b);
    match r.status {
        RunStatus::Done => (r.rows, None),
        RunStatus::Failed(e) => (r.rows, Some(e)),
        RunStatus::Running => {
            if r.m.state is Rows && r.rest.len() == 0 {
                (r.rows, None)
            } else {
                (r.rows, Some(TaserError::IncompleteStream))
            }
        },
    }
}

/// Every row a complete stream yields has exactly the stream's declared
/// header count of fields, and where the preamble parses, that count is the
/// little-endian integer in bytes 8 to 11.
pub proof fn lemma_emitted_rows_field_count(b: Seq<u8>)
    ensures
        ({
            let r = machine_run(init_model(), b);
            forall|i: int|
                0 <= i < r.rows.len() ==> {
                    &&& (#[trigger] r.rows[i]).len() == r.m.header_count
                    &&& row_resolved(r.rows[i])
                    &&& row_matches(r.m.headers, r.rows[i])
                }
        }),
        b.len() >= 12 && crate::taserconsumer::preamble_spec(b) is Ok ==> machine_run(
            init_model(),
            b,
        ).m.header_count == crate::taserconsumer::preamble_spec(b)->Ok_0.1,
{
    lemma_machine_run_rows(init_model(), b);
    if b.len() >= 12 && crate::taserconsumer::preamble_spec(b) is Ok {
        lemma_spec_step_wf(init_model(), b);
        match spec_step(init_model(), b) {
            SpecStep::Step { post, consumed, row } => {
                lemma_machine_run_count_stable(post, b.skip(consumed));
            },
            _ => {
                assert(false);
            },
        }
    }
}

/// Chunking invariance: what a decode session emits is a function of the
/// concatenation of its chunks alone ([`DecodeSession::push_chunk`] and
/// [`DecodeSession::finish`] tie a session's output to
/// [`decode_outcome`] of the bytes fed), so any two ways of cutting the same
/// byte stream into chunks yield the same rows and the same outcome.
pub proof fn lemma_chunking_invariance(c1: Seq<Seq<u8>>, c2: Seq<Seq<u8>>)
    requires
        c1.flatten() == c2.flatten(),
    ensures
        decode_outcome(c1.flatten()) == decode_outcome(c2.flatten()),
{
}

/// A decode session: the byte window and the machine wired together.  Feed
/// it chunks of any size with [`push_chunk`](DecodeSession::push_chunk) and
/// signal end of stream with [`finish`](DecodeSession::finish); rows come
/// back as they complete.
pub struct DecodeSession {
    window: ByteWindow,
    consumer: TaserConsumer,
    needed: u64,
    finished: bool,
    fed: Ghost<Seq<u8>>,
    emitted: Ghost<Seq<Seq<TaserValueModel>>>,
}

impl DecodeSession {
    /// All bytes fed so far, in order.
    pub closed spec fn bytes_fed(self) -> Seq<u8> {
        self.fed@
    }

    /// Models of all rows handed out so far, in order.
    pub closed spec fn rows_emitted(self) -> Seq<Seq<TaserValueModel>> {
        self.emitted@
    }

    /// Whether end of stream was signalled.
    pub closed spec fn spec_finished(self) -> bool {
        self.finished
    }

    /// The model of the session's machine.
    pub closed spec fn driver_model(self) -> ConsumerModel {
        self.consumer@
    }

    /// The session's invariant: its machine, window and emitted rows are
    /// exactly what running the machine over all bytes fed so far yields.
    pub closed spec fn inv(self) -> bool {
        &&& self.consumer@.wf()
        &&& !self.finished ==> {
            let r = machine_run(init_model(), self.fed@);
            &&& r.m == self.consumer@
            &&& r.rest == self.window@
            &&& r.rows == self.emitted@
            &&& match r.status {
                RunStatus::Running => {
                    &&& self.needed as int == needed_of(self.consumer@)
                    &&& !(self.consumer@.state is End)
                    &&& !(self.consumer@.state is Failed)
                },
                RunStatus::Failed(e) => self.consumer@.state == DecodeState::Failed(e),
                RunStatus::Done => self.consumer@.state is End,
            }
        }
        &&& self.finished ==> {
            &&& self.consumer@.state is End || self.consumer@.state is Failed
            &&& self.emitted@ == decode_outcome(self.fed@).0
        }
    }

    /// A fresh session that has seen no bytes.
    pub fn new() -> (s: DecodeSession)
        ensures
            s.inv(),
            !s.spec_finished(),
            s.bytes_fed() == Seq::<u8>::empty(),
            s.rows_emitted() == Seq::<Seq<TaserValueModel>>::empty(),
    {
        let s = DecodeSession {
            window: ByteWindow::new(),
            consumer: TaserConsumer::new(),
            needed: 12,
            finished: false,
            fed: Ghost(Seq::empty()),
            emitted: Ghost(Seq::empty()),
        };
        proof {
            assert(spec_step(init_model(), Seq::<u8>::empty()) is Stall);
        }
        s
    }

    /// Whether end of stream was already signalled.
    pub fn is_finished(&self) -> (b: bool)
        ensures
            b == self.spec_finished(),
    {
        self.finished
    }

    /// The driver's control state, for observation.
    pub fn driver_state(&self) -> (s: DecodeState)
        ensures
            s == self.driver_model().state,
    {
        self.consumer.state()
    }

    /// Feed one chunk.  Returns the rows that completed during this chunk,
    /// in order, and the error that stopped decoding if one did.  What comes
    /// back is a function of the concatenation of all bytes fed so far
    /// alone, however the stream was cut into chunks.
    pub fn push_chunk(&mut self, chunk: &[u8]) -> (r: (Vec<TaserRow>, Option<TaserError>))
        requires
            old(self).inv(),
            !old(self).spec_finished(),
        ensures
            final(self).inv(),
            !final(self).spec_finished(),
            final(self).bytes_fed() == old(self).bytes_fed() + chunk@,
            final(self).rows_emitted() == machine_run(init_model(), final(self).bytes_fed()).rows,
            final(self).rows_emitted() == old(self).rows_emitted() + rows_view(r.0@),
            match r.1 {
                Some(e) => machine_run(init_model(), final(self).bytes_fed()).status
                    == RunStatus::Failed(e),
                None => !(machine_run(init_model(), final(self).bytes_fed()).status is Failed),
            },
    {
        let ghost old_fed = self.fed@;
        self.window.append(chunk);
        self.fed = Ghost(old_fed + chunk@);
        proof {
            lemma_machine_run_extend(init_model(), old_fed, chunk@);
        }
        let mut out: Vec<TaserRow> = Vec::new();
        let mut err: Option<TaserError> = None;
        let ghost fed2 = self.fed@;
        let ghost base_rows = self.emitted@;
        proof {
            assert(rows_view(out@) =~= Seq::<Seq<TaserValueModel>>::empty());
        }
        match self.consumer.state() {
            DecodeState::Failed(e) => {
                proof {
                    assert(base_rows + rows_view(out@) =~= base_rows);
                }
                return (out, Some(e));
            },
            DecodeState::End => {
                proof {
                    assert(base_rows + rows_view(out@) =~= base_rows);
                }
                return (out, None);
            },
            _ => {},
        }
        proof {
            assert(base_rows + rows_view(out@) + machine_run(self.consumer@, self.window@).rows
                =~= base_rows + machine_run(self.consumer@, self.window@).rows);
        }
        loop
            invariant_except_break
                !self.finished,
                self.consumer@.wf(),
                self.fed@ == fed2,
                self.emitted@ == base_rows,
                !(self.consumer@.state is End),
                !(self.consumer@.state is Failed),
                self.needed as int == needed_of(self.consumer@),
                err is None,
                ({
                    let rr = machine_run(init_model(), fed2);
                    let rc = machine_run(self.consumer@, self.window@);
                    &&& rr.m == rc.m
                    &&& rr.rest == rc.rest
                    &&& rr.status == rc.status
                    &&& rr.rows == base_rows + rows_view(out@) + rc.rows
                }),
            ensures
                !self.finished,
                self.consumer@.wf(),
                self.fed@ == fed2,
                self.emitted@ == base_rows,
                ({
                    let rr = machine_run(init_model(), fed2);
                    &&& rr.m == self.consumer@
                    &&& rr.rest == self.window@
                    &&& rr.rows == base_rows + rows_view(out@)
                    &&& match rr.status {
                        RunStatus::Running => {
                            &&& self.needed as int == needed_of(self.consumer@)
                            &&& !(self.consumer@.state is End)
                            &&& !(self.consumer@.state is Failed)
                        },
                        RunStatus::Failed(e) => self.consumer@.state == DecodeState::Failed(e),
                        RunStatus::Done => self.consumer@.state is End,
                    }
                    &&& (err matches Some(e) ==> rr.status == RunStatus::Failed(e))
                    &&& (err is None ==> !(rr.status is Failed))
                }),
            decreases self.window@.len(), state_rank(self.consumer@.state),
        {
            let avail = self.window.available();
            if (avail as u64) < self.needed {
                proof {
                    assert(spec_step(self.consumer@, self.window@) is Stall);
                    assert(base_rows + rows_view(out@) + Seq::<Seq<TaserValueModel>>::empty()
                        =~= base_rows + rows_view(out@));
                }
                break;
            }
            proof {
                lemma_spec_step_wf(self.consumer@, self.window@);
            }
            let ghost pre = self.consumer@;
            let ghost prewin = self.window@;
            let step = self.consumer.consume(self.window.bytes());
            match step {
                ConsumerState::Await { consumed, needed } => {
                    self.window.consume(consumed);
                    self.needed = needed;
                    proof {
                        assert(Seq::<Seq<TaserValueModel>>::empty() + machine_run(
                            self.consumer@,
                            self.window@,
                        ).rows =~= machine_run(self.consumer@, self.window@).rows);
                    }
                },
                ConsumerState::RowReady { consumed, needed, row } => {
                    self.window.consume(consumed);
                    self.needed = needed;
                    let ghost rm = row@;
                    let ghost old_out = out@;
                    out.push(row);
                    proof {
                        assert(rows_view(out@) =~= rows_view(old_out).push(rm));
                        assert(base_rows + rows_view(old_out) + (seq![rm] + machine_run(
                            self.consumer@,
                            self.window@,
                        ).rows) =~= base_rows + rows_view(out@) + machine_run(
                            self.consumer@,
                            self.window@,
                        ).rows);
                    }
                },
                ConsumerState::ConsumerError(e) => {
                    err = Some(e);
                    proof {
                        assert(base_rows + rows_view(out@) + Seq::<Seq<TaserValueModel>>::empty()
                            =~= base_rows + rows_view(out@));
                    }
                    break;
                },
                ConsumerState::ConsumerDone => {
                    proof {
                        assert(false);
                    }
                    break;
                },
            }
        }
        self.emitted = Ghost(base_rows + rows_view(out@));
        (out, err)
    }

    /// Signal end of stream.  Between rows with nothing buffered this is the
    /// clean end; anywhere else the stream was truncated and the session
    /// reports `IncompleteStream` (or the error that had already stopped
    /// it).
    pub fn finish(&mut self) -> (r: Result<(), TaserError>)
        requires
            old(self).inv(),
            !old(self).spec_finished(),
        ensures
            final(self).inv(),
            final(self).spec_finished(),
            final(self).bytes_fed() == old(self).bytes_fed(),
            final(self).rows_emitted() == old(self).rows_emitted(),
            final(self).rows_emitted() == decode_outcome(old(self).bytes_fed()).0,
            match r {
                Ok(()) => decode_outcome(old(self).bytes_fed()).1 is None,
                Err(e) => decode_outcome(old(self).bytes_fed()).1 == Some(e),
            },
    {
        let avail = self.window.available();
        let r = self.consumer.end(avail);
        self.finished = true;
        r
    }
}

} // verus!
