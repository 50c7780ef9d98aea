//! The decision taken on every poll.
//!
//! A poll either fails, confirms the address that is on record, or finds
//! another one. What follows depends on nothing but the state, the
//! configured durations, the result of the poll and the time of day, so a
//! poll is a function from these to the next state and to what has to be
//! announced.

use vstd::prelude::*;
use crate::address::Address;
use crate::state::{Config, MonitoringState};

verus! {

/// What the lookup of the public address came back with.
#[derive(Clone, Copy, Debug, PartialEq, Eq, Structural)]
pub enum Resolution {
    /// The address that the lookup found.
    Resolved(Address),
    /// The lookup did not yield an address.
    Failed,
}

/// What a poll led to.
#[derive(Clone, Copy, Debug, PartialEq, Eq, Structural)]
pub enum Outcome {
    /// The lookup failed; nothing could be confirmed.
    Failed,
    /// The address is the one on record, and no reminder is due yet.
    Quiet,
    /// The address is the one on record, and has been for so long that a
    /// reminder is due: `elapsed` seconds since it was set.
    Escalated { address: Address, elapsed: u64 },
    /// The address is not the one on record: it changed to `address`,
    /// `elapsed` seconds after the one before was set.
    Changed { address: Address, elapsed: u64 },
}

impl Outcome {
    /// Whether the poll changed what has to be on record in the store.
    pub open spec fn persists(self) -> bool {
        self is Escalated || self is Changed
    }

    /// Whether the poll changed what has to be on record in the store.
    pub fn must_persist(&self) -> (r: bool)
        ensures
            r == self.persists(),
    {
        match self {
            Outcome::Escalated { .. } => true,
            Outcome::Changed { .. } => true,
            _ => false,
        }
    }
}

/// The seconds between the last change on record and `now`: zero where
/// nothing is on record yet, or where `now` lies before that change.
pub open spec fn elapsed_since_change(state: MonitoringState, now: u64) -> u64 {
    if state.last_address is None || now < state.last_change_at {
        0
    } else {
        (now - state.last_change_at) as u64
    }
}

/// The budget after a reset at the given step: that many base thresholds,
/// or the largest duration there is where they exceed it.
pub open spec fn budget_for(base_threshold: u64, step: u64) -> u64 {
    if base_threshold * step > u64::MAX {
        u64::MAX
    } else {
        (base_threshold * step) as u64
    }
}

/// The step that follows `step`; the largest step is followed by itself.
pub open spec fn step_after(step: u64) -> u64 {
    if step == u64::MAX {
        step
    } else {
        (step + 1) as u64
    }
}

/// What is left of `budget` after one more poll: nothing, where the
/// interval between two polls exceeds it.
pub open spec fn budget_after_tick(budget: u64, tick_interval: u64) -> u64 {
    if budget <= tick_interval {
        0
    } else {
        (budget - tick_interval) as u64
    }
}

/// What a poll leads to.
pub open spec fn outcome_of(
    state: MonitoringState,
    resolution: Resolution,
    now: u64,
) -> Outcome {
    match resolution {
        Resolution::Failed => Outcome::Failed,
        Resolution::Resolved(address) => if state.last_address != Some(address) {
            Outcome::Changed { address, elapsed: elapsed_since_change(state, now) }
        } else if state.stagnation_budget == 0 {
            Outcome::Escalated { address, elapsed: elapsed_since_change(state, now) }
        } else {
            Outcome::Quiet
        },
    }
}

/// The state after a poll.
pub open spec fn state_after(
    state: MonitoringState,
    config: Config,
    resolution: Resolution,
    now: u64,
) -> MonitoringState {
    match outcome_of(state, resolution, now) {
        Outcome::Failed => state,
        Outcome::Quiet => MonitoringState {
            stagnation_budget: budget_after_tick(state.stagnation_budget, config.tick_interval),
            ..state
        },
        Outcome::Escalated { .. } => MonitoringState {
            stagnation_budget: budget_for(
                config.base_threshold,
                step_after(state.escalation_step),
            ),
            escalation_step: step_after(state.escalation_step),
            ..state
        },
        Outcome::Changed { address, .. } => MonitoringState {
            last_address: Some(address),
            last_change_at: now,
            stagnation_budget: config.base_threshold,
            escalation_step: 1,
        },
    }
}

/// The budget after a reset at the given step.
pub fn reset_budget(base_threshold: u64, step: u64) -> (r: u64)
    ensures
        r == budget_for(base_threshold, step),
{
    match base_threshold.checked_mul(step) {
        Some(budget) => budget,
        None => u64::MAX,
    }
}

impl MonitoringState {
    /// The seconds between the last change on record and `now`.
    pub fn elapsed(&self, now: u64) -> (r: u64)
        ensures
            r == elapsed_since_change(*self, now),
    {
        if self.last_address.is_none() || now < self.last_change_at {
            0
        } else {
            now - self.last_change_at
        }
    }

    /// Takes one poll into account: gives the state that follows and what
    /// the poll led to.
    ///
    /// A failed lookup leaves the state as it is. An address other than the
    /// one on record is a change, whatever is left of the budget: the new
    /// address and `now` go on record, the step returns to one and the
    /// budget to the base threshold. The address on record uses the budget
    /// up by one interval while something is left of it; once nothing is
    /// left, a reminder is due, the step grows by one and the budget is
    /// reset to that many base thresholds.
    pub fn advance(self, config: &Config, resolution: Resolution, now: u64) -> (r: (
        MonitoringState,
        Outcome,
    ))
        ensures
            r.0 == state_after(self, *config, resolution, now),
            r.1 == outcome_of(self, resolution, now),
            self.wf() ==> r.0.wf(),
            resolution is Failed ==> r.0 == self && r.1 is Failed,
            r.1 is Changed <==> (resolution is Resolved && self.last_address != Some(
                resolution->Resolved_0,
            )),
            r.1 is Changed ==> r.0.escalation_step == 1 && r.0.last_address == Some(
                resolution->Resolved_0,
            ) && r.0.last_change_at == now,
            !(r.1 is Changed) ==> r.0.last_address == self.last_address && r.0.last_change_at
                == self.last_change_at,
    {
        match resolution {
            Resolution::Failed => (self, Outcome::Failed),
            Resolution::Resolved(address) => {
                let known = match self.last_address {
                    Some(last) => last == address,
                    None => false,
                };
                if !known {
                    let elapsed = self.elapsed(now);
                    (
                        MonitoringState {
                            last_address: Some(address),
                            last_change_at: now,
                            stagnation_budget: config.base_threshold,
                            escalation_step: 1,
                        },
                        Outcome::Changed { address, elapsed },
                    )
                } else if self.stagnation_budget == 0 {
                    let elapsed = self.elapsed(now);
                    let step = if self.escalation_step == u64::MAX {
                        self.escalation_step
                    } else {
                        self.escalation_step + 1
                    };
                    (
                        MonitoringState {
                            last_address: self.last_address,
                            last_change_at: self.last_change_at,
                            stagnation_budget: reset_budget(config.base_threshold, step),
                            escalation_step: step,
                        },
                        Outcome::Escalated { address, elapsed },
                    )
                } else {
                    (
                        MonitoringState {
                            last_address: self.last_address,
                            last_change_at: self.last_change_at,
                            stagnation_budget: self.stagnation_budget.saturating_sub(
                                config.tick_interval,
                            ),
                            escalation_step: self.escalation_step,
                        },
                        Outcome::Quiet,
                    )
                }
            },
        }
    }
}

} // verus!
