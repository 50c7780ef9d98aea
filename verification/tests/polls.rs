use ip_monitor::address::Address;
use ip_monitor::machine::{reset_budget, Outcome, Resolution};
use ip_monitor::monitor::{seconds_since_epoch, Monitor};
use ip_monitor::state::{Config, MonitoringState};

const HOUR: u64 = 3600;
const T0: u64 = 1_700_000_000;
const FIRST: Address = Address::V4(0x0102_0304);
const SECOND: Address = Address::V4(0x0506_0708);

fn hourly() -> Config {
    Config { base_threshold: HOUR, tick_interval: 60 }
}

fn state(address: Option<Address>, at: u64, budget: u64, step: u64) -> MonitoringState {
    MonitoringState {
        last_address: address,
        last_change_at: at,
        stagnation_budget: budget,
        escalation_step: step,
    }
}

#[test]
fn first_resolution_is_a_change_after_no_time() {
    let (next, outcome) =
        MonitoringState::new().advance(&hourly(), Resolution::Resolved(FIRST), T0);
    assert_eq!(outcome, Outcome::Changed { address: FIRST, elapsed: 0 });
    assert_eq!(next, state(Some(FIRST), T0, HOUR, 1));
    assert!(outcome.must_persist());
}

#[test]
fn an_hour_without_change_gives_one_reminder() {
    let config = hourly();
    let mut current = state(Some(FIRST), T0, HOUR, 1);
    let mut reminders = 0;
    for poll in 0..60 {
        let (next, outcome) = current.advance(&config, Resolution::Resolved(FIRST), T0 + 60 * poll);
        assert_eq!(outcome, Outcome::Quiet);
        assert!(!outcome.must_persist());
        assert_eq!(next.stagnation_budget, HOUR - 60 * (poll + 1));
        assert_eq!(next.escalation_step, 1);
        current = next;
    }
    assert_eq!(current, state(Some(FIRST), T0, 0, 1));
    let (next, outcome) = current.advance(&config, Resolution::Resolved(FIRST), T0 + HOUR);
    if let Outcome::Escalated { .. } = outcome {
        reminders += 1;
    }
    assert_eq!(outcome, Outcome::Escalated { address: FIRST, elapsed: HOUR });
    assert!(outcome.must_persist());
    assert_eq!(next, state(Some(FIRST), T0, 2 * HOUR, 2));
    let (after, outcome) = next.advance(&config, Resolution::Resolved(FIRST), T0 + HOUR + 60);
    assert_eq!(outcome, Outcome::Quiet);
    assert_eq!(after, state(Some(FIRST), T0, 2 * HOUR - 60, 2));
    assert_eq!(reminders, 1);
}

#[test]
fn a_change_wins_over_a_reminder_that_is_due() {
    let before = state(Some(FIRST), T0, 0, 3);
    let (next, outcome) = before.advance(&hourly(), Resolution::Resolved(SECOND), T0 + 500);
    assert_eq!(outcome, Outcome::Changed { address: SECOND, elapsed: 500 });
    assert_eq!(next, state(Some(SECOND), T0 + 500, HOUR, 1));
    assert_eq!(
        outcome.notice("casa"),
        Some(String::from(
            "\u{2705} Tu IP p\u{fa}blica de casa, ha cambiado a: 5.6.7.8 (despu\u{e9}s de 0 d\u{ed}as, 0 horas, 8 minutos y 20 segundos)"
        ))
    );
}

#[test]
fn a_failed_lookup_changes_nothing() {
    for before in [
        MonitoringState::new(),
        state(Some(FIRST), T0, HOUR, 1),
        state(Some(FIRST), T0, 0, 3),
        state(Some(FIRST), T0, 17, u64::MAX),
    ] {
        let (next, outcome) = before.advance(&hourly(), Resolution::Failed, T0 + 60);
        assert_eq!(outcome, Outcome::Failed);
        assert_eq!(next, before);
        assert!(!outcome.must_persist());
        assert_eq!(outcome.notice("casa"), None);
    }
}

#[test]
fn the_same_address_never_counts_as_a_change() {
    let config = Config { base_threshold: 120, tick_interval: 60 };
    let mut current = state(Some(FIRST), T0, 120, 1);
    for poll in 0..500 {
        let (next, outcome) = current.advance(&config, Resolution::Resolved(FIRST), T0 + 60 * poll);
        assert!(!matches!(outcome, Outcome::Changed { .. }));
        assert_eq!(next.last_address, Some(FIRST));
        assert_eq!(next.last_change_at, T0);
        current = next;
    }
}

#[test]
fn every_change_is_announced_once_and_resets_the_step() {
    let config = hourly();
    let mut current = state(Some(FIRST), T0, 0, 9);
    let mut changes = 0;
    for poll in 1..=10u64 {
        let found = if poll % 2 == 0 { FIRST } else { SECOND };
        let now = T0 + 60 * poll;
        let (next, outcome) = current.advance(&config, Resolution::Resolved(found), now);
        assert_eq!(outcome, Outcome::Changed { address: found, elapsed: now - current.last_change_at });
        assert_eq!(next, state(Some(found), now, HOUR, 1));
        changes += 1;
        current = next;
    }
    assert_eq!(changes, 10);
}

#[test]
fn reminders_come_at_growing_intervals() {
    let config = Config { base_threshold: 120, tick_interval: 60 };
    let mut current = state(Some(FIRST), T0, 120, 1);
    let mut polls: u64 = 0;
    let mut reminded_at = Vec::new();
    while reminded_at.len() < 5 {
        let (next, outcome) = current.advance(&config, Resolution::Resolved(FIRST), T0 + 60 * polls);
        polls += 1;
        if let Outcome::Escalated { .. } = outcome {
            reminded_at.push(polls);
        }
        current = next;
    }
    assert_eq!(reminded_at, vec![3, 8, 15, 24, 35]);
    for (n, polls) in reminded_at.iter().enumerate() {
        let n = n as u64 + 1;
        assert!(polls * 60 >= 120 * (n * (n + 1) / 2));
    }
    assert_eq!(current, state(Some(FIRST), T0, 6 * 120, 6));
}

#[test]
fn failed_lookups_do_not_use_up_the_budget() {
    let config = hourly();
    let mut current = state(Some(FIRST), T0, 120, 1);
    for poll in 0..10 {
        current = current.advance(&config, Resolution::Failed, T0 + 60 * poll).0;
    }
    assert_eq!(current.stagnation_budget, 120);
    current = current.advance(&config, Resolution::Resolved(FIRST), T0 + 600).0;
    assert_eq!(current.stagnation_budget, 60);
}

#[test]
fn the_budget_never_goes_below_zero() {
    let config = Config { base_threshold: 100, tick_interval: 60 };
    let first = state(Some(FIRST), T0, 100, 1)
        .advance(&config, Resolution::Resolved(FIRST), T0 + 60);
    assert_eq!(first.0.stagnation_budget, 40);
    let second = first.0.advance(&config, Resolution::Resolved(FIRST), T0 + 120);
    assert_eq!(second.0.stagnation_budget, 0);
    assert_eq!(second.1, Outcome::Quiet);
}

#[test]
fn the_budget_and_the_step_stop_at_the_largest_number() {
    assert_eq!(reset_budget(3600, 2), 7200);
    assert_eq!(reset_budget(0, 5), 0);
    assert_eq!(reset_budget(5, 0), 0);
    assert_eq!(reset_budget(1 << 63, 2), u64::MAX);
    assert_eq!(reset_budget(u64::MAX, 1), u64::MAX);
    assert_eq!(reset_budget(u64::MAX, u64::MAX), u64::MAX);
    let config = Config { base_threshold: 2, tick_interval: 1 };
    let (next, outcome) = state(Some(FIRST), T0, 0, u64::MAX)
        .advance(&config, Resolution::Resolved(FIRST), T0 + 1);
    assert_eq!(outcome, Outcome::Escalated { address: FIRST, elapsed: 1 });
    assert_eq!(next, state(Some(FIRST), T0, u64::MAX, u64::MAX));
}

#[test]
fn elapsed_time_is_zero_without_an_address_or_before_the_change() {
    assert_eq!(MonitoringState::new().elapsed(T0), 0);
    assert_eq!(state(None, 5, 0, 1).elapsed(T0), 0);
    assert_eq!(state(Some(FIRST), T0, 0, 1).elapsed(T0 - 1), 0);
    assert_eq!(state(Some(FIRST), T0, 0, 1).elapsed(T0), 0);
    assert_eq!(state(Some(FIRST), T0, 0, 1).elapsed(T0 + 86_400), 86_400);
    assert_eq!(state(Some(FIRST), 0, 0, 1).elapsed(u64::MAX), u64::MAX);
}

#[test]
fn a_state_with_step_zero_recovers_on_a_reminder() {
    let (next, outcome) = state(Some(FIRST), T0, 0, 0)
        .advance(&hourly(), Resolution::Resolved(FIRST), T0 + 10);
    assert_eq!(outcome, Outcome::Escalated { address: FIRST, elapsed: 10 });
    assert_eq!(next, state(Some(FIRST), T0, HOUR, 1));
}

#[test]
fn the_monitor_keeps_the_state_between_polls() {
    let mut monitor = Monitor::new(hourly(), MonitoringState::new());
    assert_eq!(
        monitor.observe_at(Resolution::Resolved(FIRST), T0),
        Outcome::Changed { address: FIRST, elapsed: 0 }
    );
    assert_eq!(monitor.observe_at(Resolution::Resolved(FIRST), T0 + 60), Outcome::Quiet);
    assert_eq!(monitor.observe_at(Resolution::Failed, T0 + 120), Outcome::Failed);
    assert_eq!(monitor.state, state(Some(FIRST), T0, HOUR - 60, 1));
    assert_eq!(monitor.config, hourly());
    assert_eq!(
        monitor.observe_at(Resolution::Resolved(SECOND), T0 + 180),
        Outcome::Changed { address: SECOND, elapsed: 180 }
    );
    assert_eq!(monitor.state, state(Some(SECOND), T0 + 180, HOUR, 1));
}

#[test]
fn the_monitor_reads_the_clock() {
    let mut monitor = Monitor::new(hourly(), MonitoringState::new());
    let outcome = monitor.observe(Resolution::Resolved(FIRST));
    assert_eq!(outcome, Outcome::Changed { address: FIRST, elapsed: 0 });
    assert_eq!(monitor.state.last_address, Some(FIRST));
    assert_eq!(monitor.state.escalation_step, 1);
    assert_eq!(monitor.state.stagnation_budget, HOUR);
    assert!(monitor.state.last_change_at > 1_600_000_000);
    let before = monitor.state;
    assert_eq!(monitor.observe(Resolution::Failed), Outcome::Failed);
    assert_eq!(monitor.state, before);
    assert_eq!(monitor.observe(Resolution::Resolved(FIRST)), Outcome::Quiet);
    assert_eq!(monitor.state.stagnation_budget, HOUR - 60);
    let changed = monitor.observe(Resolution::Resolved(SECOND));
    assert!(matches!(changed, Outcome::Changed { address: SECOND, elapsed } if elapsed < 60));
    assert!(monitor.state.last_change_at >= before.last_change_at);
}

#[test]
fn reminders_report_at_least_the_thresholds_that_passed() {
    let config = hourly();
    let mut monitor = Monitor::new(config, state(Some(FIRST), T0, HOUR, 1));
    let mut reminders = Vec::new();
    for poll in 0..=181 {
        let now = T0 + 60 * poll;
        if let Outcome::Escalated { elapsed, .. } =
            monitor.observe_at(Resolution::Resolved(FIRST), now)
        {
            reminders.push((poll, elapsed));
        }
    }
    assert_eq!(reminders, vec![(60, HOUR), (181, 3 * HOUR + 60)]);
    assert_eq!(monitor.state, state(Some(FIRST), T0, 3 * HOUR, 3));
}

#[test]
fn a_timestamp_before_the_epoch_counts_as_the_epoch() {
    assert_eq!(seconds_since_epoch(-1), 0);
    assert_eq!(seconds_since_epoch(i64::MIN), 0);
    assert_eq!(seconds_since_epoch(0), 0);
    assert_eq!(seconds_since_epoch(1_700_000_000), 1_700_000_000);
    assert_eq!(seconds_since_epoch(i64::MAX), i64::MAX as u64);
}
