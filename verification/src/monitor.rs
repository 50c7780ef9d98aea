//! The monitor: the state together with the durations that govern it.

use vstd::prelude::*;
use crate::machine::{outcome_of, state_after, Outcome, Resolution};
use crate::state::{Config, MonitoringState};

verus! {

/// The time of day that the system clock shows, as chrono counts it: the
/// reading of `SystemTime::now` turned into a `DateTime<Utc>` by chrono's
/// `From<SystemTime>`, in whole seconds since the Unix epoch as
/// `DateTime::timestamp` gives them. A clock that stands before the epoch
/// gives a negative number; the conversion is defined for every reading
/// within the years that chrono can name, some 262 000 to either side of
/// the epoch. Nothing is claimed of the number: it is what the clock of
/// the machine says.
#[verifier::external_body]
fn unix_now() -> i64 {
    chrono::DateTime::<chrono::Utc>::from(std::time::SystemTime::now()).timestamp()
}

/// The time that a Unix timestamp names, in seconds since the epoch; the
/// epoch itself for a timestamp before it.
pub open spec fn time_of(timestamp: i64) -> u64 {
    if timestamp < 0 {
        0
    } else {
        timestamp as u64
    }
}

/// The time that a Unix timestamp names.
pub fn seconds_since_epoch(timestamp: i64) -> (r: u64)
    ensures
        r == time_of(timestamp),
{
    if timestamp < 0 {
        0
    } else {
        timestamp as u64
    }
}

/// The state of the monitoring and the durations that govern it, owned by
/// the loop that polls.
#[derive(Clone, Copy, Debug, PartialEq, Eq, Structural)]
pub struct Monitor {
    /// The configured durations; they stay as they are.
    pub config: Config,
    /// What is on record at the moment.
    pub state: MonitoringState,
}

impl Monitor {
    /// A monitor that starts from `state`.
    pub fn new(config: Config, state: MonitoringState) -> (r: Monitor)
        ensures
            r.config == config,
            r.state == state,
    {
        Monitor { config, state }
    }

    /// Takes a poll made at the time `now` into account, and says what it
    /// led to.
    pub fn observe_at(&mut self, resolution: Resolution, now: u64) -> (r: Outcome)
        ensures
            final(self).config == old(self).config,
            final(self).state == state_after(old(self).state, old(self).config, resolution, now),
            r == outcome_of(old(self).state, resolution, now),
    {
        let (state, outcome) = self.state.advance(&self.config, resolution, now);
        self.state = state;
        outcome
    }

    /// Takes a poll made just now into account, and says what it led to.
    ///
    /// The time is read from the system clock where the lookup found an
    /// address, so the contract holds of some time, not of a given one. What
    /// does not depend on the time is stated outright: a failed lookup
    /// changes nothing, and which kind of outcome a poll has is decided by
    /// the address alone.
    pub fn observe(&mut self, resolution: Resolution) -> (r: Outcome)
        ensures
            final(self).config == old(self).config,
            exists|now: u64|
                final(self).state == #[trigger] state_after(
                    old(self).state,
                    old(self).config,
                    resolution,
                    now,
                ) && r == outcome_of(old(self).state, resolution, now),
            resolution is Failed ==> final(self).state == old(self).state && r is Failed,
            r is Changed <==> (resolution is Resolved && old(self).state.last_address != Some(
                resolution->Resolved_0,
            )),
            r is Changed ==> final(self).state.escalation_step == 1,
    {
        let now = match resolution {
            Resolution::Failed => 0,
            Resolution::Resolved(_) => seconds_since_epoch(unix_now()),
        };
        self.observe_at(resolution, now)
    }
}

} // verus!
