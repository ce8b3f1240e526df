//! The change-detection cycle as a state machine. The caller performs each
//! command it hands out — wait, fetch, read the store, append, notify —
//! and feeds the outcome back as an event; the machine decides what comes
//! next. Cancellation is accepted in every state and ends scheduling.

use crate::addr::Address;
use crate::history::StoreError;
use crate::resolve::IpError;
use vstd::prelude::*;

verus! {

/// Floor under the polling interval: smaller configured values are clamped
/// up to this, so the sources are not hammered.
pub const MIN_INTERVAL_SECS: u64 = 30;

/// Bounds of the randomized startup delay, in seconds.
pub const JITTER_MIN_SECS: u64 = 180;

pub const JITTER_MAX_SECS: u64 = 360;

/// Where the machine stands between events.
#[derive(PartialEq, Eq, Clone, Copy, Debug)]
pub enum Phase {
    /// Before the first cycle: the startup jitter delay is running.
    JitterWait,
    /// Between cycles: the inter-cycle wait is running.
    Waiting,
    /// A resolution is in flight.
    Resolving,
    /// The resolved address is in hand; the store's last address is being read.
    ReadingLast { resolved: Address },
    /// The observation is being appended.
    Appending { resolved: Address, first: bool },
    /// The append is durable; the notification is being sent.
    Notifying { resolved: Address, first: bool },
    /// Cancellation was requested: no further cycle starts.
    Stopped,
}

/// What the caller reports back.
#[derive(PartialEq, Eq, Clone, Copy, Debug)]
pub enum Event {
    /// The startup jitter delay elapsed.
    JitterElapsed,
    /// The inter-cycle wait elapsed.
    TickElapsed,
    /// The external cancellation signal arrived.
    CancelRequested,
    /// Resolution finished.
    Resolved { outcome: Result<Address, IpError> },
    /// The store's most recent address was read, or the read failed.
    LastRead { outcome: Result<Option<Address>, StoreError> },
    /// The append finished.
    AppendDone { outcome: Result<(), StoreError> },
    /// The notification send finished.
    NotifyDone { ok: bool },
}

/// What the caller must do next.
#[derive(PartialEq, Eq, Clone, Copy, Debug)]
pub enum Command {
    /// Sleep for the startup jitter, cancellably.
    WaitJitter { seconds: u64 },
    /// Sleep until the next cycle, cancellably.
    WaitTick { seconds: u64 },
    /// Resolve the current address from the sources.
    Resolve,
    /// Read the store's most recent address.
    ReadLastAddress,
    /// Durably append the address, then report the outcome.
    Append { address: Address, first: bool },
    /// Send the notification, then report the outcome.
    Notify { address: Address, first: bool },
    /// Stop: no further cycle is scheduled.
    Shutdown,
}

/// What one cycle does once the prior and the resolved address are known.
#[derive(PartialEq, Eq, Clone, Copy, Debug)]
pub enum CycleDecision {
    /// Nothing was ever recorded: append and notify as a first observation.
    FirstObservation,
    /// The address differs from the last recorded one: append and notify.
    Changed,
    /// The address is the last recorded one: no append, no notification.
    Unchanged,
}

/// The decision table over the store's last address and the resolved one.
pub open spec fn decision_spec(prior: Option<Address>, resolved: Address) -> CycleDecision {
    match prior {
        None => CycleDecision::FirstObservation,
        Some(p) => if p == resolved {
            CycleDecision::Unchanged
        } else {
            CycleDecision::Changed
        },
    }
}

/// Decides one cycle: no prior address means a first observation, a
/// differing prior means a change, an equal prior means nothing to do.
pub fn decide(prior: Option<Address>, resolved: Address) -> (d: CycleDecision)
    ensures
        d == decision_spec(prior, resolved),
{
    match prior {
        None => CycleDecision::FirstObservation,
        Some(p) => if p == resolved {
            CycleDecision::Unchanged
        } else {
            CycleDecision::Changed
        },
    }
}

/// Drives cycles on a fixed cadence after a randomized startup delay.
pub struct Scheduler {
    /// The clamped polling interval.
    pub interval_secs: u64,
    /// The startup jitter drawn at construction.
    pub jitter_secs: u64,
    pub phase: Phase,
}

/// The events a state is prepared to consume; cancellation is accepted in
/// every state.
pub open spec fn expects(s: Scheduler, ev: Event) -> bool {
    ||| ev is CancelRequested
    ||| match s.phase {
        Phase::JitterWait => ev is JitterElapsed,
        Phase::Waiting => ev is TickElapsed,
        Phase::Resolving => ev is Resolved,
        Phase::ReadingLast { .. } => ev is LastRead,
        Phase::Appending { .. } => ev is AppendDone,
        Phase::Notifying { .. } => ev is NotifyDone,
        Phase::Stopped => false,
    }
}

/// The whole transition relation: the state after an event, and the
/// command handed out. Cancellation stops the machine from any state; a
/// failed resolution or store read ends the cycle with nothing written; a
/// failed append ends the cycle before any notification; a failed
/// notification is logged by the caller and nothing more.
pub open spec fn step_spec(s: Scheduler, ev: Event) -> (Scheduler, Command) {
    if ev is CancelRequested {
        (Scheduler { phase: Phase::Stopped, ..s }, Command::Shutdown)
    } else {
        match s.phase {
            Phase::JitterWait => (Scheduler { phase: Phase::Resolving, ..s }, Command::Resolve),
            Phase::Waiting => (Scheduler { phase: Phase::Resolving, ..s }, Command::Resolve),
            Phase::Resolving => match ev {
                Event::Resolved { outcome: Ok(a) } => (
                    Scheduler { phase: Phase::ReadingLast { resolved: a }, ..s },
                    Command::ReadLastAddress,
                ),
                _ => (
                    Scheduler { phase: Phase::Waiting, ..s },
                    Command::WaitTick { seconds: s.interval_secs },
                ),
            },
            Phase::ReadingLast { resolved } => match ev {
                Event::LastRead { outcome: Ok(prior) } => match decision_spec(prior, resolved) {
                    CycleDecision::FirstObservation => (
                        Scheduler { phase: Phase::Appending { resolved, first: true }, ..s },
                        Command::Append { address: resolved, first: true },
                    ),
                    CycleDecision::Changed => (
                        Scheduler { phase: Phase::Appending { resolved, first: false }, ..s },
                        Command::Append { address: resolved, first: false },
                    ),
                    CycleDecision::Unchanged => (
                        Scheduler { phase: Phase::Waiting, ..s },
                        Command::WaitTick { seconds: s.interval_secs },
                    ),
                },
                _ => (
                    Scheduler { phase: Phase::Waiting, ..s },
                    Command::WaitTick { seconds: s.interval_secs },
                ),
            },
            Phase::Appending { resolved, first } => match ev {
                Event::AppendDone { outcome: Ok(_) } => (
                    Scheduler { phase: Phase::Notifying { resolved, first }, ..s },
                    Command::Notify { address: resolved, first },
                ),
                _ => (
                    Scheduler { phase: Phase::Waiting, ..s },
                    Command::WaitTick { seconds: s.interval_secs },
                ),
            },
            Phase::Notifying { .. } => (
                Scheduler { phase: Phase::Waiting, ..s },
                Command::WaitTick { seconds: s.interval_secs },
            ),
            Phase::Stopped => (s, Command::Shutdown),
        }
    }
}

/// Relies on rand::random_range over an inclusive integer range: the draw
/// lies within the bounds, and the range is non-empty, so the call does
/// not panic.
#[verifier::external_body]
fn draw_in_range(lo: u64, hi: u64) -> (r: u64)
    requires
        lo <= hi,
    ensures
        lo <= r <= hi,
{
    rand::random_range(lo..=hi)
}

impl Scheduler {
    /// A machine before its first cycle: the requested interval clamped up
    /// to the floor, and a startup jitter drawn within the fixed bounds.
    pub fn new(requested_interval_secs: u64) -> (s: Scheduler)
        ensures
            s.phase == Phase::JitterWait,
            s.interval_secs == (if requested_interval_secs < MIN_INTERVAL_SECS {
                MIN_INTERVAL_SECS
            } else {
                requested_interval_secs
            }),
            JITTER_MIN_SECS <= s.jitter_secs <= JITTER_MAX_SECS,
    {
        let interval = if requested_interval_secs < MIN_INTERVAL_SECS {
            MIN_INTERVAL_SECS
        } else {
            requested_interval_secs
        };
        let jitter = draw_in_range(JITTER_MIN_SECS, JITTER_MAX_SECS);
        Scheduler { interval_secs: interval, jitter_secs: jitter, phase: Phase::JitterWait }
    }

    /// The command that starts everything off.
    pub fn initial_command(&self) -> (c: Command)
        requires
            self.phase is JitterWait,
        ensures
            c == (Command::WaitJitter { seconds: self.jitter_secs }),
    {
        Command::WaitJitter { seconds: self.jitter_secs }
    }

    /// Whether the machine is prepared to consume this event now.
    pub fn accepts(&self, ev: &Event) -> (b: bool)
        ensures
            b == expects(*self, *ev),
    {
        match ev {
            Event::CancelRequested => true,
            Event::JitterElapsed => matches!(self.phase, Phase::JitterWait),
            Event::TickElapsed => matches!(self.phase, Phase::Waiting),
            Event::Resolved { .. } => matches!(self.phase, Phase::Resolving),
            Event::LastRead { .. } => matches!(self.phase, Phase::ReadingLast { .. }),
            Event::AppendDone { .. } => matches!(self.phase, Phase::Appending { .. }),
            Event::NotifyDone { .. } => matches!(self.phase, Phase::Notifying { .. }),
        }
    }

    /// Consumes one event and hands out the next command, exactly as the
    /// transition relation says.
    pub fn step(&mut self, ev: Event) -> (cmd: Command)
        requires
            expects(*old(self), ev),
        ensures
            *final(self) == step_spec(*old(self), ev).0,
            cmd == step_spec(*old(self), ev).1,
    {
        match ev {
            Event::CancelRequested => {
                self.phase = Phase::Stopped;
                Command::Shutdown
            },
            Event::JitterElapsed | Event::TickElapsed => {
                self.phase = Phase::Resolving;
                Command::Resolve
            },
            Event::Resolved { outcome } => match outcome {
                Ok(a) => {
                    self.phase = Phase::ReadingLast { resolved: a };
                    Command::ReadLastAddress
                },
                Err(_) => {
                    self.phase = Phase::Waiting;
                    Command::WaitTick { seconds: self.interval_secs }
                },
            },
            Event::LastRead { outcome } => {
                let resolved = match self.phase {
                    Phase::ReadingLast { resolved } => resolved,
                    _ => {
                        proof {
                            assert(false);
                        }
                        Address::V4 { a: 0, b: 0, c: 0, d: 0 }
                    },
                };
                match outcome {
                    Ok(prior) => match decide(prior, resolved) {
                        CycleDecision::FirstObservation => {
                            self.phase = Phase::Appending { resolved, first: true };
                            Command::Append { address: resolved, first: true }
                        },
                        CycleDecision::Changed => {
                            self.phase = Phase::Appending { resolved, first: false };
                            Command::Append { address: resolved, first: false }
                        },
                        CycleDecision::Unchanged => {
                            self.phase = Phase::Waiting;
                            Command::WaitTick { seconds: self.interval_secs }
                        },
                    },
                    Err(_) => {
                        self.phase = Phase::Waiting;
                        Command::WaitTick { seconds: self.interval_secs }
                    },
                }
            },
            Event::AppendDone { outcome } => {
                let (resolved, first) = match self.phase {
                    Phase::Appending { resolved, first } => (resolved, first),
                    _ => {
                        proof {
                            assert(false);
                        }
                        (Address::V4 { a: 0, b: 0, c: 0, d: 0 }, false)
                    },
                };
                match outcome {
                    Ok(_) => {
                        self.phase = Phase::Notifying { resolved, first };
                        Command::Notify { address: resolved, first }
                    },
                    Err(_) => {
                        self.phase = Phase::Waiting;
                        Command::WaitTick { seconds: self.interval_secs }
                    },
                }
            },
            Event::NotifyDone { .. } => {
                self.phase = Phase::Waiting;
                Command::WaitTick { seconds: self.interval_secs }
            },
        }
    }
}

/// The decision table, row by row, as the machine plays it: no prior
/// address commands an append marked first; a differing prior commands an
/// append marked as a change; an equal prior commands only the next wait,
/// with no append and no notification.
pub proof fn lemma_decision_table(s: Scheduler, resolved: Address, prior: Option<Address>)
    requires
        s.phase == (Phase::ReadingLast { resolved }),
    ensures
        ({
            let (s2, cmd) = step_spec(s, Event::LastRead { outcome: Ok(prior) });
            match prior {
                None => cmd == (Command::Append { address: resolved, first: true }),
                Some(p) => if p == resolved {
                    &&& cmd == (Command::WaitTick { seconds: s.interval_secs })
                    &&& s2.phase is Waiting
                } else {
                    cmd == (Command::Append { address: resolved, first: false })
                },
            }
        }),
{
}

/// A notification is commanded only on the heels of a successful append:
/// in no other state, and on no other event, does the machine ask for one.
/// In particular, when an append fails, no notification is asked for in
/// that cycle.
pub proof fn lemma_notify_only_after_successful_append(s: Scheduler, ev: Event)
    ensures
        step_spec(s, ev).1 is Notify ==> s.phase is Appending && ev matches Event::AppendDone {
            outcome: Ok(_),
        },
{
}

/// A failed append ends the cycle at once: the machine goes back to
/// waiting and the caller is told only to wait for the next tick.
pub proof fn lemma_append_failure_ends_cycle(s: Scheduler, e: StoreError, resolved: Address, first: bool)
    requires
        s.phase == (Phase::Appending { resolved, first }),
    ensures
        step_spec(s, Event::AppendDone { outcome: Err(e) }).0.phase is Waiting,
        step_spec(s, Event::AppendDone { outcome: Err(e) }).1 == (Command::WaitTick {
            seconds: s.interval_secs,
        }),
{
}

/// A failed notification is never retried: the append already succeeded,
/// so the next cycle that resolves the same address reads it back as the
/// store's last address and performs no append and no notification.
pub proof fn lemma_no_duplicate_notification(s0: Scheduler, resolved: Address, first: bool)
    requires
        s0.phase == (Phase::Notifying { resolved, first }),
    ensures
        ({
            let (s1, c1) = step_spec(s0, Event::NotifyDone { ok: false });
            let (s2, c2) = step_spec(s1, Event::TickElapsed);
            let (s3, c3) = step_spec(s2, Event::Resolved { outcome: Ok(resolved) });
            let (s4, c4) = step_spec(s3, Event::LastRead { outcome: Ok(Some(resolved)) });
            &&& !(c1 is Append) && !(c1 is Notify)
            &&& !(c2 is Append) && !(c2 is Notify)
            &&& !(c3 is Append) && !(c3 is Notify)
            &&& !(c4 is Append) && !(c4 is Notify)
            &&& s4.phase is Waiting
        }),
{
}

/// Cancellation is consumed in every state, stops the machine, and asks
/// for shutdown.
pub proof fn lemma_cancel_stops(s: Scheduler)
    ensures
        expects(s, Event::CancelRequested),
        step_spec(s, Event::CancelRequested).0.phase is Stopped,
        step_spec(s, Event::CancelRequested).1 is Shutdown,
{
}

/// Once stopped, the machine stays stopped and never asks for another
/// fetch, wait, append or notification: no further cycle starts.
pub proof fn lemma_stopped_stays_stopped(s: Scheduler, ev: Event)
    requires
        s.phase is Stopped,
    ensures
        step_spec(s, ev).0.phase is Stopped,
        step_spec(s, ev).1 is Shutdown,
{
}

} // verus!
