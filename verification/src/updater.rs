//! The update cycle: wait for the timer, poll the metric source, publish.
//!
//! The cycle is a function from a phase and an event to the next phase and
//! the action to take. Whoever drives it waits, polls and holds the
//! exclusive access; the updater decides.

use vstd::prelude::*;
use crate::snapshot::{published, Config, RawSnapshot, Snapshot};

verus! {

/// Where the cycle stands.
#[derive(Clone, Copy, Debug, PartialEq, Eq)]
pub enum Phase {
    /// Waiting for the timer.
    Idle,
    /// Waiting for the metric source.
    Polling,
    /// A reading was written under exclusive access.
    Published,
}

/// What happened outside.
#[derive(Clone, Debug, PartialEq, Eq)]
pub enum Event {
    /// The poll period is over.
    TimerFired,
    /// The metric source produced a reading.
    SnapshotReady(RawSnapshot),
    /// The metric source produced nothing for this tick.
    SourceUnavailable,
    /// Exclusive access is given up; readers see the new reading.
    Released,
}

/// What to do next.
#[derive(Clone, Copy, Debug, PartialEq, Eq)]
pub enum Action {
    /// Wait that many milliseconds, then report `TimerFired`.
    AwaitTimer { millis: u64 },
    /// Ask the metric source, and report what came.
    PollSource,
    /// See that exclusive access is given up, then report `Released`.
    Release,
}

/// Whether `event` makes the cycle write to the snapshot: a reading arrives
/// while the cycle is polling, and it can be used.
pub open spec fn publishes(phase: Phase, event: Event) -> bool {
    phase == Phase::Polling && match event {
        Event::SnapshotReady(raw) => raw.usable(),
        _ => false,
    }
}

/// The phase that follows. The timer starts a poll; a usable reading is
/// published; without one the tick is skipped and the cycle waits for the
/// next timer; an event that the phase does not wait for changes nothing.
pub open spec fn next_phase(phase: Phase, event: Event) -> Phase {
    match (phase, event) {
        (Phase::Idle, Event::TimerFired) => Phase::Polling,
        (Phase::Polling, Event::SnapshotReady(raw)) => if raw.usable() {
            Phase::Published
        } else {
            Phase::Idle
        },
        (Phase::Polling, Event::SourceUnavailable) => Phase::Idle,
        (Phase::Published, Event::Released) => Phase::Idle,
        _ => phase,
    }
}

/// The action that a phase waits on.
pub open spec fn action_in(phase: Phase, period_ms: u64) -> Action {
    match phase {
        Phase::Idle => Action::AwaitTimer { millis: period_ms },
        Phase::Polling => Action::PollSource,
        Phase::Published => Action::Release,
    }
}

/// The decisions of the timer-driven updater.
#[derive(Debug)]
pub struct Updater {
    phase: Phase,
    period_ms: u64,
}

impl Updater {
    /// Where the cycle stands.
    pub closed spec fn spec_phase(&self) -> Phase {
        self.phase
    }

    /// The time between two polls, in milliseconds.
    pub closed spec fn spec_period_ms(&self) -> u64 {
        self.period_ms
    }

    /// An updater that waits for its first timer.
    pub fn new(config: &Config) -> (updater: Self)
        ensures
            updater.phase() == Phase::Idle,
            updater.period_ms() == config.poll_period_ms,
    {
        Updater { phase: Phase::Idle, period_ms: config.poll_period_ms }
    }

    /// Where the cycle stands.
    #[verifier::when_used_as_spec(spec_phase)]
    pub fn phase(&self) -> (phase: Phase)
        ensures
            phase == self.spec_phase(),
    {
        self.phase
    }

    /// The time between two polls, in milliseconds.
    #[verifier::when_used_as_spec(spec_period_ms)]
    pub fn period_ms(&self) -> (millis: u64)
        ensures
            millis == self.spec_period_ms(),
    {
        self.period_ms
    }

    /// The action that the updater waits on as it stands.
    pub fn pending(&self) -> (action: Action)
        ensures
            action == action_in(self.phase(), self.period_ms()),
    {
        match self.phase {
            Phase::Idle => Action::AwaitTimer { millis: self.period_ms },
            Phase::Polling => Action::PollSource,
            Phase::Published => Action::Release,
        }
    }

    /// Whether `event` is a reading to write into the snapshot now.
    pub fn writes(&self, event: &Event) -> (writes: bool)
        ensures
            writes == publishes(self.phase(), *event),
    {
        match self.phase {
            Phase::Polling => match event {
                Event::SnapshotReady(raw) => raw.is_usable(),
                _ => false,
            },
            _ => false,
        }
    }

    /// Moves to the phase that follows on `event` and returns what to do
    /// next.
    pub fn advance(&mut self, event: &Event) -> (action: Action)
        ensures
            final(self).phase() == next_phase(old(self).phase(), *event),
            final(self).period_ms() == old(self).period_ms(),
            action == action_in(final(self).phase(), final(self).period_ms()),
    {
        match self.phase {
            Phase::Idle => {
                if let Event::TimerFired = event {
                    self.phase = Phase::Polling;
                }
            },
            Phase::Polling => {
                match event {
                    Event::SnapshotReady(raw) => {
                        if raw.is_usable() {
                            self.phase = Phase::Published;
                        } else {
                            self.phase = Phase::Idle;
                        }
                    },
                    Event::SourceUnavailable => {
                        self.phase = Phase::Idle;
                    },
                    _ => {},
                }
            },
            Phase::Published => {
                if let Event::Released = event {
                    self.phase = Phase::Idle;
                }
            },
        }
        self.pending()
    }

    /// Takes one event. A usable reading that arrives while polling is
    /// published into `snapshot`, whole; in every other case the snapshot
    /// stays exactly as it was. Returns what to do next.
    pub fn step(&mut self, snapshot: &mut Snapshot, event: Event) -> (action: Action)
        requires
            old(snapshot).wf(),
        ensures
            final(self).phase() == next_phase(old(self).phase(), event),
            final(self).period_ms() == old(self).period_ms(),
            action == action_in(final(self).phase(), final(self).period_ms()),
            final(snapshot).wf(),
            final(snapshot).history_capacity() == old(snapshot).history_capacity(),
            final(snapshot).table_size() == old(snapshot).table_size(),
            publishes(old(self).phase(), event) ==> match event {
                Event::SnapshotReady(raw) => final(snapshot)@ == published(
                    old(snapshot)@,
                    old(snapshot).history_capacity() as nat,
                    old(snapshot).table_size() as nat,
                    raw,
                ),
                _ => false,
            },
            !publishes(old(self).phase(), event) ==> *final(snapshot) == *old(snapshot),
    {
        if self.writes(&event) {
            if let Event::SnapshotReady(raw) = &event {
                snapshot.publish(raw);
            }
        }
        self.advance(&event)
    }
}

/// A tick that publishes goes once round the cycle: from waiting, through
/// polling and publishing, back to waiting for the next timer.
pub proof fn lemma_published_tick_returns_to_idle(raw: RawSnapshot)
    requires
        raw.usable(),
    ensures
        next_phase(Phase::Idle, Event::TimerFired) == Phase::Polling,
        next_phase(Phase::Polling, Event::SnapshotReady(raw)) == Phase::Published,
        next_phase(Phase::Published, Event::Released) == Phase::Idle,
        publishes(Phase::Polling, Event::SnapshotReady(raw)),
{
}

/// A tick without a usable reading is skipped: nothing is published, nothing
/// is tried again, and the cycle waits for the next timer.
pub proof fn lemma_skipped_tick_returns_to_idle(event: Event)
    requires
        event == Event::SourceUnavailable || (exists|raw: RawSnapshot|
            event == Event::SnapshotReady(raw) && !raw.usable()),
    ensures
        next_phase(Phase::Polling, event) == Phase::Idle,
        !publishes(Phase::Polling, event),
{
}

/// Only a reading that arrives while polling is ever published, and no phase
/// is final: each waits on an event that moves the cycle on.
pub proof fn lemma_cycle_never_ends(phase: Phase, event: Event)
    ensures
        publishes(phase, event) ==> phase == Phase::Polling && next_phase(phase, event)
            == Phase::Published,
        exists|moving: Event| next_phase(phase, moving) != phase,
{
    match phase {
        Phase::Idle => {
            assert(next_phase(phase, Event::TimerFired) != phase);
        },
        Phase::Polling => {
            assert(next_phase(phase, Event::SourceUnavailable) != phase);
        },
        Phase::Published => {
            assert(next_phase(phase, Event::Released) != phase);
        },
    }
}

} // verus!
