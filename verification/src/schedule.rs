//! When a run records history, redraws the map, saves snapshots and stops:
//! the decisions taken at the end of every tick, from the tick number and the
//! time since the last map and snapshots.

use vstd::prelude::*;
use crate::params::MAX_STEPS;

verus! {

/// A run stops after this many snapshots.
pub const MAX_SNAPS: usize = 10;
/// Seconds between two timed snapshots.
pub const SNAP_INTERVAL_SECS: u64 = 60;
/// Least number of seconds between two event snapshots.
pub const EVENT_GAP_SECS: u64 = 5;
/// Least number of milliseconds between two redraws of the board's map.
pub const PRINT_INTERVAL_MS: u128 = 500;
/// The board records a history line every this many ticks.
pub const HISTORY_EVERY: u32 = 10;
/// The walker program records a history line every this many ticks.
pub const WALKER_HISTORY_EVERY: u32 = 100;
/// The walker program redraws its map every this many ticks.
pub const WALKER_PRINT_EVERY: u32 = 500;

/// What the board does at the end of a tick.
pub struct TickActions {
    pub record_history: bool,
    pub print_map: bool,
    /// The number of the snapshot to save because the quorum peak has just
    /// crossed the threshold.
    pub event_snapshot: Option<usize>,
    /// The number of the snapshot to save because the interval has passed.
    pub timed_snapshot: Option<usize>,
    pub stop: bool,
}

/// The snapshot bookkeeping that the board carries from tick to tick.
pub struct Schedule {
    /// Snapshots saved so far.
    pub snapshots: usize,
    /// Whether the quorum peak was above the threshold at the last tick.
    pub prev_above: bool,
}

/// The event snapshot is taken on a rising edge of the quorum peak, while
/// snapshots remain and the last event snapshot is old enough.
pub open spec fn takes_event_snapshot(s: Schedule, q_above: bool, secs_since_event: u64) -> bool {
    q_above && !s.prev_above && s.snapshots < MAX_SNAPS && secs_since_event >= EVENT_GAP_SECS
}

/// An event snapshot is taken only on a rising edge of the quorum peak (above
/// the threshold now, not at the last tick), while fewer than 10 snapshots
/// exist, and at least 5 seconds after the last event snapshot; and whenever
/// all of these hold, it is taken.
pub proof fn lemma_event_snapshot_conditions(s: Schedule, q_above: bool, secs_since_event: u64)
    ensures
        takes_event_snapshot(s, q_above, secs_since_event) <==> (q_above && !s.prev_above && s.snapshots < 10
            && secs_since_event >= 5),
{
}

impl Schedule {
    pub fn new() -> (r: Self)
        ensures
            r.snapshots == 0,
            !r.prev_above,
    {
        Schedule { snapshots: 0, prev_above: false }
    }

    /// The actions for the end of tick `step` (counted from 0), and the
    /// bookkeeping after them. The run stops when the snapshots are all
    /// taken or when `MAX_STEPS` ticks have run.
    pub fn on_tick(
        &mut self,
        step: u32,
        q_above: bool,
        ms_since_print: u128,
        secs_since_event: u64,
        secs_since_snapshot: u64,
    ) -> (r: TickActions)
        ensures
            r.record_history == (step % HISTORY_EVERY == 0),
            r.print_map == (ms_since_print >= PRINT_INTERVAL_MS),
            takes_event_snapshot(*old(self), q_above, secs_since_event) ==> r.event_snapshot == Some(
                (old(self).snapshots + 1) as usize,
            ),
            !takes_event_snapshot(*old(self), q_above, secs_since_event) ==> r.event_snapshot is None,
            secs_since_event < 5 ==> r.event_snapshot is None,
            !q_above || old(self).prev_above || old(self).snapshots >= 10 ==> r.event_snapshot is None,
            secs_since_event < 5 ==> final(self).snapshots == old(self).snapshots + if r.timed_snapshot is Some {
                1int
            } else {
                0int
            },
            ({
                let after_event = old(self).snapshots + if r.event_snapshot is Some { 1int } else { 0int };
                &&& (after_event < MAX_SNAPS && secs_since_snapshot >= SNAP_INTERVAL_SECS) ==> r.timed_snapshot
                    == Some((after_event + 1) as usize)
                &&& !(after_event < MAX_SNAPS && secs_since_snapshot >= SNAP_INTERVAL_SECS) ==> r.timed_snapshot is None
                &&& final(self).snapshots == after_event + if r.timed_snapshot is Some { 1int } else { 0int }
            }),
            final(self).prev_above == q_above,
            old(self).snapshots <= MAX_SNAPS ==> final(self).snapshots <= MAX_SNAPS,
            r.stop == (final(self).snapshots >= MAX_SNAPS || step + 1 >= MAX_STEPS),
    {
        let record_history = step % HISTORY_EVERY == 0;
        let print_map = ms_since_print >= PRINT_INTERVAL_MS;
        let mut event_snapshot: Option<usize> = None;
        if q_above && !self.prev_above && self.snapshots < MAX_SNAPS && secs_since_event >= EVENT_GAP_SECS {
            self.snapshots = self.snapshots + 1;
            event_snapshot = Some(self.snapshots);
        }
        self.prev_above = q_above;
        let mut timed_snapshot: Option<usize> = None;
        if self.snapshots < MAX_SNAPS && secs_since_snapshot >= SNAP_INTERVAL_SECS {
            self.snapshots = self.snapshots + 1;
            timed_snapshot = Some(self.snapshots);
        }
        let stop = self.snapshots >= MAX_SNAPS || step >= MAX_STEPS - 1;
        TickActions { record_history, print_map, event_snapshot, timed_snapshot, stop }
    }
}

/// What the walker program does at the end of a tick.
pub struct WalkerActions {
    pub record_history: bool,
    pub print_map: bool,
    /// The number of the snapshot to save, when one is due.
    pub snapshot: Option<usize>,
}

/// The snapshot count that the walker program carries from tick to tick.
pub struct WalkerSchedule {
    pub snapshots: usize,
}

impl WalkerSchedule {
    pub fn new() -> (r: Self)
        ensures
            r.snapshots == 0,
    {
        WalkerSchedule { snapshots: 0 }
    }

    /// The actions for the end of tick `step`: a history line every 100
    /// ticks, a map every 500, and a snapshot once a minute, at most
    /// `MAX_SNAPS` of them. The walker program never stops by itself.
    pub fn on_tick(&mut self, step: u32, secs_since_snapshot: u64) -> (r: WalkerActions)
        ensures
            r.record_history == (step % WALKER_HISTORY_EVERY == 0),
            r.print_map == (step % WALKER_PRINT_EVERY == 0),
            (old(self).snapshots < MAX_SNAPS && secs_since_snapshot >= SNAP_INTERVAL_SECS) ==> (r.snapshot
                == Some((old(self).snapshots + 1) as usize) && final(self).snapshots == old(self).snapshots + 1),
            !(old(self).snapshots < MAX_SNAPS && secs_since_snapshot >= SNAP_INTERVAL_SECS) ==> (r.snapshot is None
                && final(self).snapshots == old(self).snapshots),
            old(self).snapshots <= MAX_SNAPS ==> final(self).snapshots <= MAX_SNAPS,
    {
        let record_history = step % WALKER_HISTORY_EVERY == 0;
        let print_map = step % WALKER_PRINT_EVERY == 0;
        let mut snapshot: Option<usize> = None;
        if self.snapshots < MAX_SNAPS && secs_since_snapshot >= SNAP_INTERVAL_SECS {
            self.snapshots = self.snapshots + 1;
            snapshot = Some(self.snapshots);
        }
        WalkerActions { record_history, print_map, snapshot }
    }
}

} // verus!
