//! The decisions of the loop that relays HID reports between the device and
//! the protocol engine.
//!
//! The loop itself reads, decodes, and writes; after each of these it tells
//! the machine what happened and is told what to do next.

use vstd::prelude::*;

verus! {

/// The length of one HID report in bytes.
pub const REPORT_LEN: usize = 64;

/// What the loop is doing with the report that it read.
#[derive(Clone, Copy, Debug, PartialEq, Eq, Structural)]
pub enum Stage {
    /// The report is with the decoder.
    Decoding,
    /// The decoded packet is with the protocol engine.
    Dispatching,
    /// The engine gave `total` packets; those before `next` are written.
    Writing { next: usize, total: usize },
}

/// The state of the relay loop.
#[derive(Clone, Copy, Debug, PartialEq, Eq, Structural)]
pub enum RelayState {
    /// Nothing is pending: the loop reads.
    Idle,
    /// A report was read and is being answered.
    Processing(Stage),
}

/// What happened since the last step.
#[derive(Clone, Copy, Debug, PartialEq, Eq, Structural)]
pub enum RelayEvent {
    /// A read returned this many bytes.
    ReportRead(usize),
    /// The decoder made a packet of the report.
    Decoded,
    /// The decoder refused the report.
    DecodeFailed,
    /// The engine answered with this many packets.
    Responses(usize),
    /// The engine refused the packet.
    EngineFailed,
    /// A packet was written to the device.
    Written,
    /// A read or a write failed.
    IoFailed,
}

/// What the loop does next.
#[derive(Clone, Copy, Debug, PartialEq, Eq, Structural)]
pub enum RelayAction {
    /// Read one report from the device.
    Read,
    /// Hand the report to the decoder.
    Decode,
    /// Hand the packet to the protocol engine.
    Dispatch,
    /// Write the engine's packet with this index to the device.
    Write(usize),
    /// Drop what was read, say why, and read the next report.
    Discard,
    /// Give up: the failure goes to whoever runs the loop.
    Abort,
}

impl RelayState {
    /// Whether `event` can happen in this state. A failure of the device can
    /// happen in any state.
    pub open spec fn expects(self, event: RelayEvent) -> bool {
        match (self, event) {
            (_, RelayEvent::IoFailed) => true,
            (RelayState::Idle, RelayEvent::ReportRead(_)) => true,
            (RelayState::Processing(Stage::Decoding), RelayEvent::Decoded) => true,
            (RelayState::Processing(Stage::Decoding), RelayEvent::DecodeFailed) => true,
            (RelayState::Processing(Stage::Dispatching), RelayEvent::Responses(_)) => true,
            (RelayState::Processing(Stage::Dispatching), RelayEvent::EngineFailed) => true,
            (RelayState::Processing(Stage::Writing { next, total }), RelayEvent::Written) => next
                < total,
            _ => false,
        }
    }

    /// The state after `event`, and what the loop does next.
    pub open spec fn step_spec(self, event: RelayEvent) -> (RelayState, RelayAction) {
        match (self, event) {
            (_, RelayEvent::IoFailed) => (RelayState::Idle, RelayAction::Abort),
            (RelayState::Idle, RelayEvent::ReportRead(n)) => if n == 0 {
                (RelayState::Idle, RelayAction::Read)
            } else {
                (RelayState::Processing(Stage::Decoding), RelayAction::Decode)
            },
            (RelayState::Processing(Stage::Decoding), RelayEvent::Decoded) => (
                RelayState::Processing(Stage::Dispatching),
                RelayAction::Dispatch,
            ),
            (RelayState::Processing(Stage::Decoding), RelayEvent::DecodeFailed) => (
                RelayState::Idle,
                RelayAction::Discard,
            ),
            (RelayState::Processing(Stage::Dispatching), RelayEvent::Responses(total)) => if total
                == 0 {
                (RelayState::Idle, RelayAction::Read)
            } else {
                (
                    RelayState::Processing(Stage::Writing { next: 0, total }),
                    RelayAction::Write(0),
                )
            },
            (RelayState::Processing(Stage::Dispatching), RelayEvent::EngineFailed) => (
                RelayState::Idle,
                RelayAction::Discard,
            ),
            (RelayState::Processing(Stage::Writing { next, total }), RelayEvent::Written) => if next
                + 1 < total {
                (
                    RelayState::Processing(Stage::Writing { next: (next + 1) as usize, total }),
                    RelayAction::Write((next + 1) as usize),
                )
            } else if next < total {
                (RelayState::Idle, RelayAction::Read)
            } else {
                (self, RelayAction::Abort)
            },
            _ => (self, RelayAction::Abort),
        }
    }

    /// The state after the events `events`, in their order.
    pub open spec fn run(self, events: Seq<RelayEvent>) -> RelayState
        decreases events.len(),
    {
        if events.len() == 0 {
            self
        } else {
            self.run(events.drop_last()).step_spec(events.last()).0
        }
    }

    /// How often the loop hands a packet to the engine over the events
    /// `events`.
    pub open spec fn dispatches(self, events: Seq<RelayEvent>) -> nat
        decreases events.len(),
    {
        if events.len() == 0 {
            0
        } else {
            let before = self.run(events.drop_last());
            let now: nat = if before.step_spec(events.last()).1 == RelayAction::Dispatch {
                1
            } else {
                0
            };
            self.dispatches(events.drop_last()) + now
        }
    }

    /// Whether the loop gives up somewhere over the events `events`.
    pub open spec fn aborts(self, events: Seq<RelayEvent>) -> bool
        decreases events.len(),
    {
        if events.len() == 0 {
            false
        } else {
            self.aborts(events.drop_last()) || self.run(events.drop_last()).step_spec(
                events.last(),
            ).1 == RelayAction::Abort
        }
    }

    /// The state in which the loop starts.
    pub fn new() -> (r: RelayState)
        ensures
            r == RelayState::Idle,
    {
        RelayState::Idle
    }

    /// Whether `event` can happen in this state.
    pub fn accepts(&self, event: &RelayEvent) -> (r: bool)
        ensures
            r == self.expects(*event),
    {
        match (*self, *event) {
            (_, RelayEvent::IoFailed) => true,
            (RelayState::Idle, RelayEvent::ReportRead(_)) => true,
            (RelayState::Processing(Stage::Decoding), RelayEvent::Decoded) => true,
            (RelayState::Processing(Stage::Decoding), RelayEvent::DecodeFailed) => true,
            (RelayState::Processing(Stage::Dispatching), RelayEvent::Responses(_)) => true,
            (RelayState::Processing(Stage::Dispatching), RelayEvent::EngineFailed) => true,
            (RelayState::Processing(Stage::Writing { next, total }), RelayEvent::Written) => next
                < total,
            _ => false,
        }
    }

    /// Takes `event` and says what the loop does next. Only a failure of the
    /// device makes the loop give up; a report that does not decode and a
    /// packet that the engine refuses are dropped. An event that cannot
    /// happen in this state is a fault of whoever drives the machine: the
    /// state stays and the answer is to give up.
    pub fn step(&mut self, event: RelayEvent) -> (action: RelayAction)
        ensures
            (*final(self), action) == old(self).step_spec(event),
            old(self).expects(event) ==> ((action == RelayAction::Abort) == (event
                == RelayEvent::IoFailed)),
            !old(self).expects(event) ==> action == RelayAction::Abort && *final(self) == *old(
                self,
            ),
    {
        let (next_state, action) = match (*self, event) {
            (_, RelayEvent::IoFailed) => (RelayState::Idle, RelayAction::Abort),
            (RelayState::Idle, RelayEvent::ReportRead(n)) => {
                if n == 0 {
                    (RelayState::Idle, RelayAction::Read)
                } else {
                    (RelayState::Processing(Stage::Decoding), RelayAction::Decode)
                }
            },
            (RelayState::Processing(Stage::Decoding), RelayEvent::Decoded) => (
                RelayState::Processing(Stage::Dispatching),
                RelayAction::Dispatch,
            ),
            (RelayState::Processing(Stage::Decoding), RelayEvent::DecodeFailed) => (
                RelayState::Idle,
                RelayAction::Discard,
            ),
            (RelayState::Processing(Stage::Dispatching), RelayEvent::Responses(total)) => {
                if total == 0 {
                    (RelayState::Idle, RelayAction::Read)
                } else {
                    (
                        RelayState::Processing(Stage::Writing { next: 0, total }),
                        RelayAction::Write(0),
                    )
                }
            },
            (RelayState::Processing(Stage::Dispatching), RelayEvent::EngineFailed) => (
                RelayState::Idle,
                RelayAction::Discard,
            ),
            (RelayState::Processing(Stage::Writing { next, total }), RelayEvent::Written) => {
                if next < total && next + 1 < total {
                    (
                        RelayState::Processing(Stage::Writing { next: next + 1, total }),
                        RelayAction::Write(next + 1),
                    )
                } else if next < total {
                    (RelayState::Idle, RelayAction::Read)
                } else {
                    (*self, RelayAction::Abort)
                }
            },
            (state, _) => (state, RelayAction::Abort),
        };
        *self = next_state;
        action
    }
}

/// The events of writing `k` packets, one after the other.
pub open spec fn writes(k: nat) -> Seq<RelayEvent> {
    Seq::new(k, |i: int| RelayEvent::Written)
}

/// What one read brings, when the device does not fail.
pub enum Report {
    /// Nothing: the host sent no report.
    Empty,
    /// A report that the decoder refuses.
    Malformed,
    /// A report that decodes to a packet which the engine refuses.
    Refused,
    /// A report that decodes to a packet which the engine answers with this
    /// many packets.
    Answered(usize),
}

impl Report {
    /// The events of the cycle that handles this report.
    pub open spec fn events(self) -> Seq<RelayEvent> {
        match self {
            Report::Empty => seq![RelayEvent::ReportRead(0)],
            Report::Malformed => seq![RelayEvent::ReportRead(REPORT_LEN), RelayEvent::DecodeFailed],
            Report::Refused => seq![
                RelayEvent::ReportRead(REPORT_LEN),
                RelayEvent::Decoded,
                RelayEvent::EngineFailed,
            ],
            Report::Answered(total) => seq![
                RelayEvent::ReportRead(REPORT_LEN),
                RelayEvent::Decoded,
                RelayEvent::Responses(total),
            ] + writes(total as nat),
        }
    }

    /// Whether this report decodes to a packet.
    pub open spec fn decodes(self) -> bool {
        self == Report::Refused || self is Answered
    }
}

/// The events of the cycles that handle `reports`, one after the other.
pub open spec fn trace(reports: Seq<Report>) -> Seq<RelayEvent>
    decreases reports.len(),
{
    if reports.len() == 0 {
        Seq::empty()
    } else {
        trace(reports.drop_last()) + reports.last().events()
    }
}

/// How many of `reports` decode to a packet.
pub open spec fn packets(reports: Seq<Report>) -> nat
    decreases reports.len(),
{
    if reports.len() == 0 {
        0
    } else {
        let now: nat = if reports.last().decodes() {
            1
        } else {
            0
        };
        packets(reports.drop_last()) + now
    }
}

/// What one more event adds to a run.
proof fn lemma_run_push(state: RelayState, events: Seq<RelayEvent>, event: RelayEvent)
    ensures
        state.run(events.push(event)) == state.run(events).step_spec(event).0,
        state.dispatches(events.push(event)) == state.dispatches(events) + (if state.run(
            events,
        ).step_spec(event).1 == RelayAction::Dispatch {
            1nat
        } else {
            0nat
        }),
        state.aborts(events.push(event)) == (state.aborts(events) || state.run(events).step_spec(
            event,
        ).1 == RelayAction::Abort),
{
    assert(events.push(event).drop_last() =~= events);
    assert(events.push(event).last() == event);
}

/// A run over two sequences of events is the run over the first, followed
/// from where it ended by the run over the second.
proof fn lemma_run_concat(state: RelayState, first: Seq<RelayEvent>, second: Seq<RelayEvent>)
    ensures
        state.run(first + second) == state.run(first).run(second),
        state.dispatches(first + second) == state.dispatches(first) + state.run(first).dispatches(
            second,
        ),
        state.aborts(first + second) == (state.aborts(first) || state.run(first).aborts(second)),
    decreases second.len(),
{
    if second.len() == 0 {
        assert(first + second =~= first);
    } else {
        lemma_run_concat(state, first, second.drop_last());
        assert((first + second).drop_last() =~= first + second.drop_last());
        assert((first + second).last() == second.last());
    }
}

/// The engine's packets are written in the order in which it gave them, each
/// once: after the engine answered with `total` packets and `k` of them are
/// written, with more to come, the loop is about to write the packet with
/// index `k`; once all are written, the loop is idle again. Along the way
/// the loop neither gives up nor turns to the engine.
pub proof fn lemma_writes_in_order(total: usize, k: nat)
    requires
        0 < total,
        k <= total,
    ensures
        ({
            let start = RelayState::Processing(Stage::Dispatching).step_spec(
                RelayEvent::Responses(total),
            );
            let after = start.0.run(writes(k));
            &&& start.1 == RelayAction::Write(0)
            &&& k < total ==> after == RelayState::Processing(
                Stage::Writing { next: k as usize, total },
            )
            &&& k < total ==> after.expects(RelayEvent::Written)
            &&& k + 1 < total ==> after.step_spec(RelayEvent::Written).1 == RelayAction::Write(
                (k + 1) as usize,
            )
            &&& k == total ==> after == RelayState::Idle
            &&& start.0.dispatches(writes(k)) == 0
            &&& !start.0.aborts(writes(k))
        }),
    decreases k,
{
    if k > 0 {
        lemma_writes_in_order(total, (k - 1) as nat);
        assert(writes(k).drop_last() =~= writes((k - 1) as nat));
        assert(writes(k).last() == RelayEvent::Written);
    }
}

/// The cycle that handles one report starts and ends idle, never gives up,
/// and turns to the engine once if the report decodes and not at all if it
/// does not.
pub proof fn lemma_one_report(report: Report)
    ensures
        RelayState::Idle.run(report.events()) == RelayState::Idle,
        !RelayState::Idle.aborts(report.events()),
        RelayState::Idle.dispatches(report.events()) == (if report.decodes() {
            1nat
        } else {
            0nat
        }),
{
    let idle = RelayState::Idle;
    let none = Seq::<RelayEvent>::empty();
    let read = RelayEvent::ReportRead(REPORT_LEN);
    match report {
        Report::Empty => {
            lemma_run_push(idle, none, RelayEvent::ReportRead(0));
            assert(none.push(RelayEvent::ReportRead(0)) =~= report.events());
        },
        Report::Malformed => {
            lemma_run_push(idle, none, read);
            lemma_run_push(idle, none.push(read), RelayEvent::DecodeFailed);
            assert(none.push(read).push(RelayEvent::DecodeFailed) =~= report.events());
        },
        Report::Refused => {
            lemma_run_push(idle, none, read);
            lemma_run_push(idle, none.push(read), RelayEvent::Decoded);
            lemma_run_push(
                idle,
                none.push(read).push(RelayEvent::Decoded),
                RelayEvent::EngineFailed,
            );
            assert(none.push(read).push(RelayEvent::Decoded).push(RelayEvent::EngineFailed)
                =~= report.events());
        },
        Report::Answered(total) => {
            let two = none.push(read).push(RelayEvent::Decoded);
            let three = two.push(RelayEvent::Responses(total));
            lemma_run_push(idle, none, read);
            lemma_run_push(idle, none.push(read), RelayEvent::Decoded);
            lemma_run_push(idle, two, RelayEvent::Responses(total));
            assert(three + writes(total as nat) =~= report.events());
            lemma_run_concat(idle, three, writes(total as nat));
            if total > 0 {
                lemma_writes_in_order(total, total as nat);
            } else {
                assert(writes(0) =~= none);
            }
        },
    }
}

/// Whatever the host sends, as long as the device does not fail: after any
/// sequence of reports the loop is idle and has not given up, and it has
/// turned to the engine exactly once for each report that decodes. A report
/// that does not decode costs nothing but itself.
pub proof fn lemma_loop_survives(reports: Seq<Report>)
    ensures
        RelayState::Idle.run(trace(reports)) == RelayState::Idle,
        !RelayState::Idle.aborts(trace(reports)),
        RelayState::Idle.dispatches(trace(reports)) == packets(reports),
    decreases reports.len(),
{
    if reports.len() > 0 {
        lemma_loop_survives(reports.drop_last());
        lemma_one_report(reports.last());
        lemma_run_concat(RelayState::Idle, trace(reports.drop_last()), reports.last().events());
    }
}

/// Whatever the loop was doing, a report that does not decode and a packet
/// that the engine refuses leave it idle and reading: neither ends the loop.
pub proof fn lemma_bad_input_is_survived(state: RelayState, event: RelayEvent)
    requires
        state.expects(event),
        event == RelayEvent::DecodeFailed || event == RelayEvent::EngineFailed,
    ensures
        state.step_spec(event) == (RelayState::Idle, RelayAction::Discard),
        RelayState::Idle.expects(RelayEvent::ReportRead(REPORT_LEN)),
{
}

} // verus!
