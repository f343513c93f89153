//! The session state machine: the owner of one device's connection
//! lifecycle and of the command-acknowledgment protocol.
//!
//! A session starts disconnected, is given a target port by `configure`,
//! connects through `start`, sends one command at a time through
//! `send_command` — which writes the newline-terminated command and then
//! polls the inbound stream, line by line, for the device's
//! acknowledgment under a fixed bound of read-timeout windows — and
//! returns to the disconnected state through `stop`. The whole machine
//! is verified against the scripted transport and host models; the
//! acknowledgment wait's behaviour is pinned down by the `ack_wait`
//! specification below.

use vstd::prelude::*;
use vstd::string::StringSliceAdditionalSpecFns;

use crate::errors::AdapterError;
use crate::framer::LineFramer;
use crate::framer::complete_lines;
use crate::framer::has_newline;
use crate::framer::lemma_first_newline_bounds;
use crate::framer::line_prefix;
use crate::framer::line_rest;
use crate::framer::unterminated_rest;
use crate::protocol::ACK_TIMEOUT_TICKS;
use crate::protocol::LineVerdict;
use crate::protocol::line_verdict;
use crate::protocol::scan_line;
use crate::protocol::wire_bytes;
use crate::protocol::wire_of;
use crate::transport::ReadStep;
use crate::transport::ScriptedHost;
use crate::transport::ScriptedTransport;

verus! {

/// The reported condition of a connected session.
#[derive(Clone, Copy, Debug, PartialEq, Eq, Structural)]
pub enum SessionStatus {
    Ready,
    Printing,
    Paused,
    Error,
}

/// What one acknowledgment wait amounts to, as a value: its outcome,
/// how many scripted read outcomes it consumed, how many read-timeout
/// windows elapsed, and what stays buffered for the next wait.
pub struct AckView {
    pub outcome: Result<(), AdapterError>,
    pub consumed: int,
    pub reads: int,
    pub buffered: Seq<u8>,
}

/// Inspect every complete line buffered so far, in order: a fault
/// marker fails the wait at once (it takes precedence over the ready
/// marker on the same line), the ready marker succeeds it, and any
/// other line is discarded. `None` means no decision: the bytes after
/// the last complete line stay buffered.
pub open spec fn drain_verdict(acc: Seq<u8>) -> (Option<Result<(), AdapterError>>, Seq<u8>)
    decreases acc.len() via drain_verdict_decreases
{
    if has_newline(acc) {
        let l = line_prefix(acc);
        let rest = line_rest(acc);
        if line_verdict(l) is Fault {
            (Some(Err(AdapterError::DeviceFault)), rest)
        } else if line_verdict(l) is Ready {
            (Some(Ok(())), rest)
        } else {
            drain_verdict(rest)
        }
    } else {
        (None, acc)
    }
}

#[via_fn]
proof fn drain_verdict_decreases(acc: Seq<u8>) {
    lemma_first_newline_bounds(acc);
}

/// The acknowledgment wait over a scripted device, started with `acc`
/// already buffered, the script `steps` still unread, and `ticks`
/// read-timeout windows already elapsed since the wait began: drain the
/// buffered lines; if none decides and the bound is reached, time out;
/// otherwise read one more chunk (one window) and continue. A scripted
/// read fault ends the wait with `ReadFailed`.
pub open spec fn ack_wait(acc: Seq<u8>, steps: Seq<ReadStep>, ticks: int) -> AckView
    decreases ACK_TIMEOUT_TICKS - ticks
    when 0 <= ticks <= ACK_TIMEOUT_TICKS
{
    match drain_verdict(acc) {
        (Some(res), rest) => AckView { outcome: res, consumed: 0, reads: 0, buffered: rest },
        (None, rest) => {
            if ticks >= ACK_TIMEOUT_TICKS {
                AckView {
                    outcome: Err(AdapterError::Timeout),
                    consumed: 0,
                    reads: 0,
                    buffered: rest,
                }
            } else if steps.len() == 0 {
                let g = ack_wait(rest, steps, ticks + 1);
                AckView {
                    outcome: g.outcome,
                    consumed: g.consumed,
                    reads: g.reads + 1,
                    buffered: g.buffered,
                }
            } else {
                match steps[0] {
                    ReadStep::Fault => AckView {
                        outcome: Err(AdapterError::ReadFailed),
                        consumed: 1,
                        reads: 1,
                        buffered: rest,
                    },
                    ReadStep::Chunk(c) => {
                        let g = ack_wait(rest + c@, steps.drop_first(), ticks + 1);
                        AckView {
                            outcome: g.outcome,
                            consumed: g.consumed + 1,
                            reads: g.reads + 1,
                            buffered: g.buffered,
                        }
                    },
                }
            }
        },
    }
}

/// Buffers with the same drained verdict behave the same for the whole
/// wait.
pub proof fn lemma_ack_wait_drain_eq(a1: Seq<u8>, a2: Seq<u8>, steps: Seq<ReadStep>, ticks: int)
    requires
        0 <= ticks <= ACK_TIMEOUT_TICKS,
        drain_verdict(a1) == drain_verdict(a2),
    ensures
        ack_wait(a1, steps, ticks) == ack_wait(a2, steps, ticks),
{
    assert(ack_wait(a1, steps, ticks) == ack_wait(a2, steps, ticks));
}

/// Whether every scripted read outcome is a data chunk (no read
/// faults).
pub open spec fn all_chunks(steps: Seq<ReadStep>) -> bool {
    forall|i: int| 0 <= i < steps.len() ==> steps[i] is Chunk
}

/// All bytes the script will ever deliver, in order.
pub open spec fn chunks_data(steps: Seq<ReadStep>) -> Seq<u8>
    decreases steps.len(),
{
    if steps.len() == 0 {
        Seq::empty()
    } else {
        (match steps[0] {
            ReadStep::Chunk(c) => c@,
            ReadStep::Fault => Seq::empty(),
        }) + chunks_data(steps.drop_first())
    }
}

/// A byte stream is quiet when none of its complete lines carries
/// either marker.
pub open spec fn quiet_stream(total: Seq<u8>) -> bool {
    forall|k: int|
        0 <= k < complete_lines(total).len() ==> line_verdict(
            #[trigger] complete_lines(total)[k],
        ) is Neither
}

/// Draining a quiet buffer decides nothing and leaves the unterminated
/// tail.
pub proof fn lemma_drain_quiet(acc: Seq<u8>)
    requires
        quiet_stream(acc),
    ensures
        drain_verdict(acc) == (None::<Result<(), AdapterError>>, unterminated_rest(acc)),
    decreases acc.len(),
{
    lemma_first_newline_bounds(acc);
    if has_newline(acc) {
        let rest = line_rest(acc);
        assert(complete_lines(acc) == seq![line_prefix(acc)] + complete_lines(rest));
        assert(complete_lines(acc)[0] == line_prefix(acc));
        assert(line_verdict(line_prefix(acc)) is Neither);
        assert forall|k: int| 0 <= k < complete_lines(rest).len() implies line_verdict(
            #[trigger] complete_lines(rest)[k],
        ) is Neither by {
            assert(complete_lines(rest)[k] == complete_lines(acc)[k + 1]);
        }
        lemma_drain_quiet(rest);
    }
}

/// Over a script of plain data chunks that never completes a line
/// bearing either marker, the acknowledgment wait resolves to
/// `Timeout`, and neither earlier nor later than the bound: starting
/// with `ticks` windows elapsed it performs exactly the remaining
/// `ACK_TIMEOUT_TICKS - ticks` read windows (each of up to one read
/// timeout) before giving up, consuming the script as far as those
/// windows reach.
pub proof fn lemma_quiet_wait_times_out(acc: Seq<u8>, steps: Seq<ReadStep>, ticks: int)
    requires
        0 <= ticks <= ACK_TIMEOUT_TICKS,
        all_chunks(steps),
        quiet_stream(acc + chunks_data(steps)),
    ensures
        ack_wait(acc, steps, ticks).outcome == Err::<(), AdapterError>(AdapterError::Timeout),
        ack_wait(acc, steps, ticks).reads == ACK_TIMEOUT_TICKS - ticks,
        ack_wait(acc, steps, ticks).consumed == (if ACK_TIMEOUT_TICKS - ticks <= steps.len() {
            ACK_TIMEOUT_TICKS - ticks
        } else {
            steps.len() as int
        }),
    decreases ACK_TIMEOUT_TICKS - ticks,
{
    let data = chunks_data(steps);
    crate::framer::lemma_lines_decompose(acc, data);
    assert forall|k: int| 0 <= k < complete_lines(acc).len() implies line_verdict(
        #[trigger] complete_lines(acc)[k],
    ) is Neither by {
        assert(complete_lines(acc)[k] == complete_lines(acc + data)[k]);
    }
    lemma_drain_quiet(acc);
    let u = unterminated_rest(acc);
    if ticks >= ACK_TIMEOUT_TICKS {
    } else if steps.len() == 0 {
        assert(data =~= Seq::<u8>::empty());
        assert(u + chunks_data(steps) =~= u);
        crate::framer::lemma_lines_decompose(u, Seq::empty());
        crate::framer::lemma_lines_shape(acc);
        assert(!has_newline(u));
        assert(complete_lines(u) =~= Seq::<Seq<u8>>::empty());
        lemma_quiet_wait_times_out(u, steps, ticks + 1);
    } else {
        assert(steps[0] is Chunk);
        let c = steps[0]->Chunk_0;
        let rest_steps = steps.drop_first();
        assert(all_chunks(rest_steps)) by {
            assert forall|i: int| 0 <= i < rest_steps.len() implies rest_steps[i] is Chunk by {
                assert(rest_steps[i] == steps[i + 1]);
            }
        }
        assert(data == c@ + chunks_data(rest_steps));
        assert(acc + data =~= acc + (c@ + chunks_data(rest_steps)));
        assert((u + c@) + chunks_data(rest_steps) =~= u + (c@ + chunks_data(rest_steps)));
        assert forall|k: int| 0 <= k < complete_lines((u + c@) + chunks_data(rest_steps)).len()
            implies line_verdict(
            #[trigger] complete_lines((u + c@) + chunks_data(rest_steps))[k],
        ) is Neither by {
            assert(complete_lines(u + (c@ + chunks_data(rest_steps)))[k] == complete_lines(
                acc + data,
            )[k + complete_lines(acc).len()]);
        }
        lemma_quiet_wait_times_out(u + c@, rest_steps, ticks + 1);
    }
}

/// The session: the single mutable unit of state for one device
/// connection. Created disconnected, reusable across reconnects, never
/// discarded while the process runs.
pub struct Session {
    running: bool,
    configured_target: Option<String>,
    transport: Option<ScriptedTransport>,
    status: Option<SessionStatus>,
    framer: LineFramer,
}

impl Session {
    /// Whether the session currently holds an open connection.
    pub closed spec fn running(&self) -> bool {
        self.running
    }

    /// The configured target port name, if any.
    pub closed spec fn target(&self) -> Option<String> {
        self.configured_target
    }

    /// The open transport, if any.
    pub closed spec fn transport(&self) -> Option<ScriptedTransport> {
        self.transport
    }

    /// The reported status; `None` while disconnected.
    pub closed spec fn status(&self) -> Option<SessionStatus> {
        self.status
    }

    /// The inbound bytes buffered past the last complete line.
    pub closed spec fn buffered(&self) -> Seq<u8> {
        self.framer@
    }

    /// The session invariant: a transport is held exactly while
    /// running; `Ready`, `Printing` and `Paused` are connected states;
    /// the initial state and `Error` are disconnected.
    pub open spec fn wf(&self) -> bool {
        &&& (self.transport() is Some <==> self.running())
        &&& (match self.status() {
            Some(SessionStatus::Ready) => self.running(),
            Some(SessionStatus::Printing) => self.running(),
            Some(SessionStatus::Paused) => self.running(),
            Some(SessionStatus::Error) => !self.running(),
            None => !self.running(),
        })
    }

    /// A fresh, disconnected, unconfigured session.
    pub fn new() -> (r: Session)
        ensures
            !r.running(),
            r.target() is None,
            r.transport() is None,
            r.status() is None,
            r.buffered() == Seq::<u8>::empty(),
            r.wf(),
    {
        Session {
            running: false,
            configured_target: None,
            transport: None,
            status: None,
            framer: LineFramer::new(),
        }
    }

    /// Store the target port name. Valid in any state; opens nothing.
    pub fn configure(&mut self, printer: String)
        ensures
            final(self).target() == Some(printer),
            final(self).running() == old(self).running(),
            final(self).transport() == old(self).transport(),
            final(self).status() == old(self).status(),
            final(self).buffered() == old(self).buffered(),
            old(self).wf() ==> final(self).wf(),
    {
        self.configured_target = Some(printer);
    }

    /// Whether the session is connected: a pure read, never blocks,
    /// never fails.
    pub fn is_connected(&self) -> (r: bool)
        ensures
            r == self.running(),
    {
        self.running
    }

    /// The current status: a pure read, never blocks, never fails.
    pub fn current_status(&self) -> (r: Option<SessionStatus>)
        ensures
            r == self.status(),
    {
        self.status
    }

    /// The bytes written to the open transport so far, if one is open:
    /// a pure read, never blocks, never fails.
    pub fn written_log(&self) -> (r: Option<&Vec<u8>>)
        ensures
            r is Some <==> self.transport() is Some,
            r matches Some(w) ==> w@ == self.transport()->Some_0.written@,
    {
        match &self.transport {
            Some(t) => Some(&t.written),
            None => None,
        }
    }

    /// Connect: run discovery against the host, require a configured
    /// target, open the transport, and become ready. On any failure the
    /// session is left exactly as it was (retry policy belongs to the
    /// reconnect supervisor, not here).
    pub fn start(&mut self, host: &mut ScriptedHost) -> (r: Result<(), AdapterError>)
        requires
            old(self).wf(),
            !old(self).running(),
        ensures
            final(self).wf(),
            final(self).target() == old(self).target(),
            final(host).discovery_fails == old(host).discovery_fails,
            old(host).discovery_fails ==> r == Err::<(), AdapterError>(
                AdapterError::DiscoveryFailed,
            ) && *final(self) == *old(self) && final(host).opens == old(host).opens,
            !old(host).discovery_fails && old(self).target() is None ==> r == Err::<(),
                AdapterError,
            >(AdapterError::NoPrinterConfigured) && *final(self) == *old(self) && final(host).opens
                == old(host).opens,
            !old(host).discovery_fails && old(self).target() is Some && old(host).opens@.len() == 0
                ==> r == Err::<(), AdapterError>(AdapterError::OpenFailed) && *final(self) == *old(
                self,
            ) && final(host).opens == old(host).opens,
            !old(host).discovery_fails && old(self).target() is Some && old(host).opens@.len() > 0
                ==> final(host).opens@ == old(host).opens@.drop_first() && (match old(
                host,
            ).opens@[0] {
                crate::transport::OpenOutcome::Refuse => r == Err::<(), AdapterError>(
                    AdapterError::OpenFailed,
                ) && *final(self) == *old(self),
                crate::transport::OpenOutcome::Accept(t) => r == Ok::<(), AdapterError>(())
                    && final(self).running() && final(self).status() == Some(SessionStatus::Ready)
                    && final(self).transport() == Some(t) && final(self).buffered() == Seq::<
                    u8,
                >::empty(),
            }),
    {
        if host.discovery_fails {
            return Err(AdapterError::DiscoveryFailed);
        }
        if self.configured_target.is_none() {
            return Err(AdapterError::NoPrinterConfigured);
        }
        match host.open_transport() {
            Err(e) => Err(e),
            Ok(t) => {
                self.transport = Some(t);
                self.status = Some(SessionStatus::Ready);
                self.running = true;
                self.framer = LineFramer::new();
                Ok(())
            },
        }
    }

    /// Disconnect: close and drop the transport if one is open, clear
    /// the buffer, return to the initial (disconnected) state. Keeps
    /// the configured target. Always succeeds, from any state.
    pub fn stop(&mut self) -> (r: Result<(), AdapterError>)
        ensures
            r == Ok::<(), AdapterError>(()),
            !final(self).running(),
            final(self).transport() is None,
            final(self).status() is None,
            final(self).buffered() == Seq::<u8>::empty(),
            final(self).target() == old(self).target(),
            final(self).wf(),
    {
        match self.transport.take() {
            Some(mut t) => {
                t.close();
            },
            None => {},
        }
        self.running = false;
        self.status = None;
        self.framer = LineFramer::new();
        Ok(())
    }

    /// Drop the session to `Error` after a transport fault the caller
    /// chose not to survive: the connection is discarded and only the
    /// reconnect supervisor may bring the session back.
    pub fn drop_to_error(&mut self)
        ensures
            !final(self).running(),
            final(self).transport() is None,
            final(self).status() == Some(SessionStatus::Error),
            final(self).buffered() == Seq::<u8>::empty(),
            final(self).target() == old(self).target(),
            final(self).wf(),
    {
        match self.transport.take() {
            Some(mut t) => {
                t.close();
            },
            None => {},
        }
        self.running = false;
        self.status = Some(SessionStatus::Error);
        self.framer = LineFramer::new();
    }

    /// Send one command and wait for its acknowledgment.
    ///
    /// With no open transport this fails with `NoTransport` and changes
    /// nothing — no write is ever attempted. Otherwise the command's
    /// bytes plus one newline go out in a single write, and the wait
    /// polls the device as `ack_wait` specifies: buffered lines are
    /// inspected first, each further read consumes one read-timeout
    /// window, the ready marker resolves the wait, a fault line or a
    /// read fault fails it, and `ACK_TIMEOUT_TICKS` windows without a
    /// decision are a `Timeout`. The session stays connected and
    /// `Ready` whatever the outcome: whether a fault should drop the
    /// session is the caller's decision (`drop_to_error`).
    pub fn send_command(&mut self, cmd: &str) -> (r: Result<(), AdapterError>)
        requires
            old(self).wf(),
        ensures
            final(self).wf(),
            final(self).running() == old(self).running(),
            final(self).status() == old(self).status(),
            final(self).target() == old(self).target(),
            old(self).transport() is None ==> r == Err::<(), AdapterError>(
                AdapterError::NoTransport,
            ) && *final(self) == *old(self),
            (old(self).transport() is Some && old(self).transport()->Some_0.fail_writes) ==> r
                == Err::<(), AdapterError>(AdapterError::WriteFailed) && *final(self) == *old(
                self,
            ),
            (old(self).transport() is Some && !old(self).transport()->Some_0.fail_writes) ==> ({
                let t0 = old(self).transport()->Some_0;
                let total = ack_wait(old(self).buffered(), t0.script@, 0);
                &&& r == total.outcome
                &&& final(self).buffered() == total.buffered
                &&& (final(self).transport() matches Some(t2) && t2.script@ == t0.script@.skip(
                    total.consumed,
                ) && t2.written@ == t0.written@ + wire_of(cmd.spec_bytes()) && t2.fail_writes
                    == t0.fail_writes)
            }),
    {
        let mut t = match self.transport.take() {
            None => {
                return Err(AdapterError::NoTransport);
            },
            Some(t) => t,
        };
        let wire = wire_bytes(cmd);
        match t.write(wire.as_slice()) {
            Err(e) => {
                self.transport = Some(t);
                return Err(e);
            },
            Ok(()) => {},
        }
        let ghost acc0 = self.framer@;
        let ghost steps0 = t.script@;
        let ghost w1 = t.written@;
        let ghost total = ack_wait(acc0, steps0, 0);
        let mut ticks: u64 = 0;
        let ghost mut kcons: int = 0;
        loop
            invariant
                old(self).wf(),
                old(self).transport() is Some,
                !old(self).transport()->Some_0.fail_writes,
                steps0 == old(self).transport()->Some_0.script@,
                acc0 == old(self).buffered(),
                w1 == old(self).transport()->Some_0.written@ + wire_of(cmd.spec_bytes()),
                total == ack_wait(acc0, steps0, 0),
                0 <= ticks <= ACK_TIMEOUT_TICKS,
                0 <= kcons <= steps0.len(),
                t.script@ == steps0.skip(kcons),
                t.written@ == w1,
                t.fail_writes == old(self).transport()->Some_0.fail_writes,
                self.transport is None,
                self.running == old(self).running,
                self.configured_target == old(self).configured_target,
                self.status == old(self).status,
                ({
                    let g = ack_wait(self.framer@, t.script@, ticks as int);
                    &&& total.outcome == g.outcome
                    &&& total.buffered == g.buffered
                    &&& total.consumed == kcons + g.consumed
                }),
            decreases ACK_TIMEOUT_TICKS - ticks, self.framer@.len(),
        {
            let ghost acc_here = self.framer@;
            match self.framer.take_line() {
                Some(line) => {
                    match scan_line(line.as_slice()) {
                        LineVerdict::Fault => {
                            proof {
                                assert(drain_verdict(acc_here) == (
                                    Some(Err::<(), AdapterError>(AdapterError::DeviceFault)),
                                    self.framer@,
                                ));
                            }
                            self.transport = Some(t);
                            return Err(AdapterError::DeviceFault);
                        },
                        LineVerdict::Ready => {
                            proof {
                                assert(drain_verdict(acc_here) == (
                                    Some(Ok::<(), AdapterError>(())),
                                    self.framer@,
                                ));
                            }
                            self.transport = Some(t);
                            return Ok(());
                        },
                        LineVerdict::Neither => {
                            proof {
                                lemma_first_newline_bounds(acc_here);
                                assert(self.framer@.len() < acc_here.len());
                                assert(drain_verdict(acc_here) == drain_verdict(self.framer@));
                                lemma_ack_wait_drain_eq(
                                    acc_here,
                                    self.framer@,
                                    t.script@,
                                    ticks as int,
                                );
                            }
                        },
                    }
                },
                None => {
                    proof {
                        assert(drain_verdict(acc_here) == (
                            None::<Result<(), AdapterError>>,
                            acc_here,
                        ));
                    }
                    if ticks >= ACK_TIMEOUT_TICKS {
                        self.transport = Some(t);
                        return Err(AdapterError::Timeout);
                    }
                    let ghost script_before = t.script@;
                    match t.read_chunk() {
                        Err(e) => {
                            proof {
                                assert(script_before[0] is Fault);
                                assert(steps0.skip(kcons).drop_first() =~= steps0.skip(kcons + 1));
                                kcons = kcons + 1;
                            }
                            self.transport = Some(t);
                            return Err(e);
                        },
                        Ok(chunk) => {
                            proof {
                                if script_before.len() > 0 {
                                    assert(script_before[0] matches ReadStep::Chunk(c) && chunk
                                        == c);
                                    assert(steps0.skip(kcons).drop_first() =~= steps0.skip(
                                        kcons + 1,
                                    ));
                                    kcons = kcons + 1;
                                } else {
                                    assert(chunk@ =~= Seq::<u8>::empty());
                                    assert(acc_here + chunk@ =~= acc_here);
                                }
                            }
                            self.framer.feed(chunk.as_slice());
                        },
                    }
                    ticks = ticks + 1;
                },
            }
        }
    }
}

} // verus!
