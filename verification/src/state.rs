//! What the monitor remembers between two polls.

use vstd::prelude::*;
use crate::address::Address;

verus! {

/// The durations that govern the monitor, fixed when it starts.
#[derive(Clone, Copy, Debug, PartialEq, Eq, Structural)]
pub struct Config {
    /// Seconds an address may stay unchanged before the first reminder.
    pub base_threshold: u64,
    /// Seconds that pass between two polls.
    pub tick_interval: u64,
}

/// The record that the monitor keeps and stores.
#[derive(Clone, Copy, Debug, PartialEq, Eq, Structural)]
pub struct MonitoringState {
    /// The address confirmed last; none before the first confirmation.
    pub last_address: Option<Address>,
    /// When `last_address` was set, in seconds since the Unix epoch.
    pub last_change_at: u64,
    /// Seconds left until the next reminder that nothing changed is due.
    pub stagnation_budget: u64,
    /// How many base thresholds the budget was last reset to; one after a
    /// change, one more after every reminder.
    pub escalation_step: u64,
}

impl MonitoringState {
    /// Whether the record is one that the monitor can have produced.
    pub open spec fn wf(self) -> bool {
        self.escalation_step >= 1
    }

    /// The state before anything was ever confirmed.
    pub open spec fn initial() -> MonitoringState {
        MonitoringState {
            last_address: None,
            last_change_at: 0,
            stagnation_budget: 0,
            escalation_step: 1,
        }
    }

    /// The state before anything was ever confirmed: no address, time zero,
    /// nothing left of the budget, step one.
    pub fn new() -> (r: MonitoringState)
        ensures
            r == MonitoringState::initial(),
            r.wf(),
    {
        MonitoringState {
            last_address: None,
            last_change_at: 0,
            stagnation_budget: 0,
            escalation_step: 1,
        }
    }

    /// Whether the record is one that the monitor can have produced.
    pub fn is_valid(&self) -> (r: bool)
        ensures
            r == self.wf(),
    {
        self.escalation_step >= 1
    }
}

impl Default for MonitoringState {
    /// The state before anything was ever confirmed.
    fn default() -> (r: MonitoringState)
        ensures
            r == MonitoringState::initial(),
    {
        MonitoringState::new()
    }
}

} // verus!
