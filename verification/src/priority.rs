//! Priority levels and the ageing rule that turns waiting time into urgency.

use vstd::prelude::*;

verus! {

/// Urgency of a submitted job: a small fixed ladder of levels, the higher
/// numeral the more urgent. The level is fixed at submission; waiting raises
/// only the entry's effective priority, never this stored value.
#[derive(Clone, Copy, Debug, PartialEq, Eq, Structural)]
pub enum Priority {
    P0,
    P1,
    P2,
    P3,
    P4,
    P5,
    P6,
    P7,
    P8,
}

/// The numeral of the most urgent priority level.
pub const TOP_LEVEL: u64 = 8;

/// Ticks of waiting that raise an entry's effective priority by one level.
/// A tick is whatever unit the embedding program stamps entries with; it only
/// has to use the same unit for enqueue stamps and for the dequeue instant.
pub const AGEING_TICKS_PER_LEVEL: u64 = 100;

impl Priority {
    /// The numeral of this level.
    pub open spec fn level(self) -> int {
        match self {
            Priority::P0 => 0,
            Priority::P1 => 1,
            Priority::P2 => 2,
            Priority::P3 => 3,
            Priority::P4 => 4,
            Priority::P5 => 5,
            Priority::P6 => 6,
            Priority::P7 => 7,
            Priority::P8 => 8,
        }
    }

    /// The numeral of this level, as a machine integer.
    pub fn level_index(&self) -> (level: u64)
        ensures
            level == self.level(),
            level <= TOP_LEVEL,
    {
        match self {
            Priority::P0 => 0,
            Priority::P1 => 1,
            Priority::P2 => 2,
            Priority::P3 => 3,
            Priority::P4 => 4,
            Priority::P5 => 5,
            Priority::P6 => 6,
            Priority::P7 => 7,
            Priority::P8 => 8,
        }
    }
}

/// How long an entry stamped at `enqueue_tick` has waited by instant `now`;
/// a stamp from the future counts as no wait at all.
pub open spec fn waited(enqueue_tick: u64, now: u64) -> int {
    if now >= enqueue_tick {
        now - enqueue_tick
    } else {
        0
    }
}

/// Effective priority of an entry at instant `now`: its base level plus one
/// level per `AGEING_TICKS_PER_LEVEL` ticks waited, capped at `TOP_LEVEL`.
/// Non-decreasing in `now`, so patience only ever raises an entry's standing.
pub open spec fn effective_priority(priority: Priority, enqueue_tick: u64, now: u64) -> int {
    let aged = priority.level() + waited(enqueue_tick, now) / (AGEING_TICKS_PER_LEVEL as int);
    if aged >= TOP_LEVEL {
        TOP_LEVEL as int
    } else {
        aged
    }
}

/// Effective priority of an entry at instant `now`, as a machine integer.
pub fn effective_level(priority: &Priority, enqueue_tick: u64, now: u64) -> (level: u64)
    ensures
        level == effective_priority(*priority, enqueue_tick, now),
        level <= TOP_LEVEL,
{
    let base = priority.level_index();
    let ticks_waited: u64 = if now >= enqueue_tick {
        now - enqueue_tick
    } else {
        0
    };
    let gained: u64 = ticks_waited / AGEING_TICKS_PER_LEVEL;
    if gained >= TOP_LEVEL - base {
        TOP_LEVEL
    } else {
        base + gained
    }
}

/// Every effective priority lies between the entry's own level and the top
/// level.
pub proof fn lemma_effective_priority_bounds(priority: Priority, enqueue_tick: u64, now: u64)
    ensures
        priority.level() <= effective_priority(priority, enqueue_tick, now),
        effective_priority(priority, enqueue_tick, now) <= TOP_LEVEL,
{
    let q = AGEING_TICKS_PER_LEVEL as int;
    vstd::arithmetic::div_mod::lemma_div_is_ordered(0, waited(enqueue_tick, now), q);
}

/// Ageing is monotone: an entry's effective priority never falls as time
/// passes.
pub proof fn lemma_effective_priority_monotonic(
    priority: Priority,
    enqueue_tick: u64,
    earlier: u64,
    later: u64,
)
    requires
        earlier <= later,
    ensures
        effective_priority(priority, enqueue_tick, earlier) <= effective_priority(
            priority,
            enqueue_tick,
            later,
        ),
{
    let q = AGEING_TICKS_PER_LEVEL as int;
    vstd::arithmetic::div_mod::lemma_div_is_ordered(
        waited(enqueue_tick, earlier),
        waited(enqueue_tick, later),
        q,
    );
}

/// Eventual dominance: once an entry has waited `AGEING_TICKS_PER_LEVEL`
/// ticks for each level between its own and the top, its effective priority
/// is the top level, so no entry — whatever its base priority or age — stands
/// above it.
pub proof fn lemma_ageing_dominance(
    aged_priority: Priority,
    aged_tick: u64,
    other_priority: Priority,
    other_tick: u64,
    now: u64,
)
    requires
        waited(aged_tick, now) >= (TOP_LEVEL - aged_priority.level()) * (
        AGEING_TICKS_PER_LEVEL as int),
    ensures
        effective_priority(aged_priority, aged_tick, now) == TOP_LEVEL as int,
        effective_priority(aged_priority, aged_tick, now) >= effective_priority(
            other_priority,
            other_tick,
            now,
        ),
{
    let q = AGEING_TICKS_PER_LEVEL as int;
    let levels_short = TOP_LEVEL - aged_priority.level();
    vstd::arithmetic::div_mod::lemma_div_multiples_vanish(levels_short, q);
    vstd::arithmetic::div_mod::lemma_div_is_ordered(levels_short * q, waited(aged_tick, now), q);
    lemma_effective_priority_bounds(other_priority, other_tick, now);
}

} // verus!
