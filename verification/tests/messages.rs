use ip_monitor::address::Address;
use ip_monitor::machine::Outcome;
use ip_monitor::message::{changed_message, duration_to_string, unchanged_message};

#[test]
fn a_duration_is_told_in_days_hours_minutes_and_seconds() {
    assert_eq!(duration_to_string(0), "0 d\u{ed}as, 0 horas, 0 minutos y 0 segundos");
    assert_eq!(duration_to_string(59), "0 d\u{ed}as, 0 horas, 0 minutos y 59 segundos");
    assert_eq!(duration_to_string(60), "0 d\u{ed}as, 0 horas, 1 minutos y 0 segundos");
    assert_eq!(duration_to_string(3600), "0 d\u{ed}as, 1 horas, 0 minutos y 0 segundos");
    assert_eq!(duration_to_string(86_399), "0 d\u{ed}as, 23 horas, 59 minutos y 59 segundos");
    assert_eq!(duration_to_string(86_400), "1 d\u{ed}as, 0 horas, 0 minutos y 0 segundos");
    assert_eq!(duration_to_string(90_061), "1 d\u{ed}as, 1 horas, 1 minutos y 1 segundos");
    assert_eq!(
        duration_to_string(u64::MAX),
        "213503982334601 d\u{ed}as, 7 horas, 0 minutos y 15 segundos"
    );
}

#[test]
fn a_change_is_announced_with_the_new_address() {
    assert_eq!(
        changed_message("casa", &Address::V4(0x0102_0304), 0),
        "\u{2705} Tu IP p\u{fa}blica de casa, ha cambiado a: 1.2.3.4 (despu\u{e9}s de 0 d\u{ed}as, 0 horas, 0 minutos y 0 segundos)"
    );
    assert_eq!(
        changed_message("", &Address::V6(1), 3661),
        "\u{2705} Tu IP p\u{fa}blica de , ha cambiado a: 0:0:0:0:0:0:0:1 (despu\u{e9}s de 0 d\u{ed}as, 1 horas, 1 minutos y 1 segundos)"
    );
}

#[test]
fn a_reminder_names_the_address_that_stayed() {
    assert_eq!(
        unchanged_message("LOCATION", &Address::V4(0x0102_0304), 3600),
        "\u{23f9} Tu IP p\u{fa}blica 1.2.3.4 de LOCATION, no ha cambiado en 0 d\u{ed}as, 1 horas, 0 minutos y 0 segundos"
    );
}

#[test]
fn only_changes_and_reminders_are_announced() {
    let address = Address::V4(0x0102_0304);
    assert_eq!(Outcome::Failed.notice("casa"), None);
    assert_eq!(Outcome::Quiet.notice("casa"), None);
    assert_eq!(
        Outcome::Changed { address, elapsed: 61 }.notice("casa"),
        Some(changed_message("casa", &address, 61))
    );
    assert_eq!(
        Outcome::Escalated { address, elapsed: 7200 }.notice("casa"),
        Some(unchanged_message("casa", &address, 7200))
    );
    assert_ne!(
        Outcome::Changed { address, elapsed: 61 }.notice("casa"),
        Outcome::Escalated { address, elapsed: 61 }.notice("casa")
    );
    assert!(Outcome::Changed { address, elapsed: 61 }.must_persist());
    assert!(Outcome::Escalated { address, elapsed: 61 }.must_persist());
    assert!(!Outcome::Quiet.must_persist());
    assert!(!Outcome::Failed.must_persist());
}
