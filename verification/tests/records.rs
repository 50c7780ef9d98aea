use ip_monitor::address::Address;
use ip_monitor::state::MonitoringState;

fn state(address: Option<Address>, at: u64, budget: u64, step: u64) -> MonitoringState {
    MonitoringState {
        last_address: address,
        last_change_at: at,
        stagnation_budget: budget,
        escalation_step: step,
    }
}

#[test]
fn the_initial_state_is_empty_with_step_one() {
    let initial = MonitoringState::new();
    assert_eq!(initial, state(None, 0, 0, 1));
    assert_eq!(MonitoringState::default(), initial);
    assert!(initial.is_valid());
}

#[test]
fn a_state_with_step_zero_is_not_valid() {
    assert!(!state(Some(Address::V4(1)), 5, 5, 0).is_valid());
    assert!(state(Some(Address::V4(1)), 5, 5, 1).is_valid());
    assert!(state(None, 0, 0, u64::MAX).is_valid());
}

#[test]
fn a_record_is_the_address_and_three_numbers() {
    assert_eq!(
        state(Some(Address::V4(0x0102_0304)), 1_700_000_000, 3600, 1).to_record(),
        "1.2.3.4 1700000000 3600 1"
    );
    assert_eq!(
        state(Some(Address::V6(0x2001_0db8 << 96 | 1)), 42, 0, 7).to_record(),
        "2001:db8:0:0:0:0:0:1 42 0 7"
    );
    assert_eq!(MonitoringState::new().to_record(), " 0 0 1");
    assert_eq!(
        state(None, u64::MAX, u64::MAX, u64::MAX).to_record(),
        " 18446744073709551615 18446744073709551615 18446744073709551615"
    );
}

#[test]
fn a_record_is_read_back_as_the_state() {
    assert_eq!(
        MonitoringState::from_record("1.2.3.4 1700000000 3600 1"),
        Some(state(Some(Address::V4(0x0102_0304)), 1_700_000_000, 3600, 1))
    );
    assert_eq!(
        MonitoringState::from_record("0:0:0:0:0:0:0:1 42 0 7"),
        Some(state(Some(Address::V6(1)), 42, 0, 7))
    );
    assert_eq!(MonitoringState::from_record(" 0 0 1"), Some(MonitoringState::new()));
}

#[test]
fn saving_then_loading_gives_the_same_state() {
    for saved in [
        MonitoringState::new(),
        state(Some(Address::V4(0x0102_0304)), 1_700_000_000, 3600, 1),
        state(Some(Address::V4(u32::MAX)), 0, 0, 1),
        state(Some(Address::V6(u128::MAX)), u64::MAX, u64::MAX, u64::MAX),
        state(Some(Address::V6(0)), 1, 2, 3),
        state(None, 10, 20, 30),
    ] {
        let record = saved.to_record();
        assert_eq!(MonitoringState::from_record(&record), Some(saved));
        assert_eq!(MonitoringState::load(Some(&record)), saved);
    }
}

#[test]
fn what_is_not_a_record_is_refused() {
    for text in [
        "",
        " ",
        "1.2.3.4",
        "1.2.3.4 1 2",
        "1.2.3.4 1 2 3 4",
        "1.2.3.4 1 2 3 ",
        "1.2.3.4 1 2 3\n\n",
        "1.2.3.4 1 2 3\r\n",
        "\n1.2.3.4 1 2 3",
        "\n",
        "1.2.3.4  1 2 3",
        "1.2.3.4 01 2 3",
        "1.2.3.4 1 2 0",
        "1.2.3.4 1 2 0\n",
        "1.2.3.4 1 2 -3",
        "1.2.3.4 1 2 x",
        "1.2.3.4 18446744073709551616 2 3",
        "1.2.3 1 2 3",
        "1.2.3.400 1 2 3",
        "::1 1 2 3",
        "1.2.3.4 - 2024-01-01 00:00:00 UTC",
        "0 0 1",
        "d\u{ed}as 1 2 3",
    ] {
        assert_eq!(MonitoringState::from_record(text), None, "{:?}", text);
        assert_eq!(MonitoringState::from_stored(text), None, "{:?}", text);
        assert_eq!(MonitoringState::load(Some(text)), MonitoringState::new(), "{:?}", text);
    }
}

#[test]
fn a_line_feed_at_the_end_of_the_store_is_left_out() {
    let saved = state(Some(Address::V4(0x0102_0304)), 1_700_000_000, 3600, 2);
    assert_eq!(MonitoringState::from_record("1.2.3.4 1700000000 3600 2\n"), None);
    assert_eq!(MonitoringState::from_stored("1.2.3.4 1700000000 3600 2\n"), Some(saved));
    assert_eq!(MonitoringState::from_stored("1.2.3.4 1700000000 3600 2"), Some(saved));
    assert_eq!(MonitoringState::load(Some("1.2.3.4 1700000000 3600 2\n")), saved);
    assert_eq!(MonitoringState::load(Some("1.2.3.4 1700000000 3600 2")), saved);
    assert_eq!(MonitoringState::load(Some(" 0 0 1\n")), MonitoringState::new());
    assert_eq!(MonitoringState::from_stored(" 5 6 7\n"), Some(state(None, 5, 6, 7)));
}

#[test]
fn a_stored_record_is_read_back_with_or_without_a_line_feed() {
    for saved in [
        MonitoringState::new(),
        state(Some(Address::V4(u32::MAX)), 0, 0, 1),
        state(Some(Address::V6(u128::MAX)), u64::MAX, u64::MAX, u64::MAX),
    ] {
        let record = saved.to_record();
        assert!(!record.ends_with('\n'));
        assert_eq!(MonitoringState::from_stored(&record), Some(saved));
        assert_eq!(MonitoringState::from_stored(&format!("{}\n", record)), Some(saved));
        assert_eq!(MonitoringState::load(Some(&format!("{}\n", record))), saved);
    }
}

#[test]
fn an_empty_store_gives_the_initial_state() {
    assert_eq!(MonitoringState::load(None), MonitoringState::new());
}
