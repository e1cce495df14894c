use mtcap::devices::Eui;
use mtcap::hex::ParseError;
use mtcap::sessions::{select_old, session_path, sessions_to_evict, ActiveDevice};
use mtcap::timestamp::{is_stale, parse_timestamp, Date};

fn eui(last: u8) -> Eui {
    Eui::new([0x00, 0x80, 0x00, 0x00, 0xa0, 0x00, 0x0f, last])
}

fn session(deveui: &str, last_seen: &str, created_at: &str) -> ActiveDevice {
    ActiveDevice {
        deveui: deveui.to_string(),
        last_seen: last_seen.to_string(),
        created_at: created_at.to_string(),
    }
}

#[test]
fn a_timestamp_gives_its_date() {
    assert_eq!(
        parse_timestamp("2024-05-01T12:30:00Z"),
        Some(Date::new(2024, 5, 1))
    );
    assert_eq!(
        parse_timestamp("1999-12-31T23:59:59Z"),
        Some(Date::new(1999, 12, 31))
    );
    assert_eq!(
        parse_timestamp("2024-02-29T00:00:00Z"),
        Some(Date { year: 2024, month: 2, day: 29 })
    );
}

#[test]
fn what_is_no_timestamp_gives_none() {
    assert_eq!(parse_timestamp("null"), None);
    assert_eq!(parse_timestamp(""), None);
    assert_eq!(parse_timestamp("2024-05-01"), None);
    assert_eq!(parse_timestamp("2024-05-01 12:30:00"), None);
    assert_eq!(parse_timestamp("2024-05-01T12:30:00"), None);
    assert_eq!(parse_timestamp("2023-02-29T00:00:00Z"), None);
    assert_eq!(parse_timestamp("2024-13-01T00:00:00Z"), None);
    assert_eq!(parse_timestamp("2024-05-01T24:00:00Z"), None);
    assert_eq!(parse_timestamp("%Y-%m-%dT%H:%M:%SZ"), None);
}

#[test]
fn dates_are_ordered_by_year_month_day() {
    let day = Date::new(2024, 5, 10);
    assert!(Date::new(2023, 12, 31).is_before(&day));
    assert!(Date::new(2024, 4, 30).is_before(&day));
    assert!(Date::new(2024, 5, 9).is_before(&day));
    assert!(!day.is_before(&day));
    assert!(!Date::new(2024, 5, 11).is_before(&day));
    assert!(!Date::new(2024, 6, 1).is_before(&day));
    assert!(!Date::new(2025, 1, 1).is_before(&day));
    assert!(Date::new(-1, 12, 31).is_before(&Date::new(1, 1, 1)));
}

#[test]
fn staleness_prefers_the_last_sighting() {
    let cutoff = Date::new(2024, 5, 10);
    let old = Some(Date::new(2024, 5, 9));
    let new = Some(Date::new(2024, 5, 10));
    assert!(is_stale(old, new, &cutoff));
    assert!(!is_stale(new, old, &cutoff));
    assert!(is_stale(None, old, &cutoff));
    assert!(!is_stale(None, new, &cutoff));
    assert!(is_stale(old, None, &cutoff));
    assert!(!is_stale(None, None, &cutoff));
}

#[test]
fn old_sessions_are_those_strictly_before_the_cutoff() {
    let active = vec![
        session("00-80-00-00-a0-00-0f-01", "2024-05-09T23:59:59Z", "2020-01-01T00:00:00Z"),
        session("00-80-00-00-a0-00-0f-02", "2024-05-10T00:00:00Z", "2020-01-01T00:00:00Z"),
        session("00-80-00-00-a0-00-0f-03", "null", "2024-05-09T08:00:00Z"),
        session("00-80-00-00-a0-00-0f-04", "never", "2024-05-10T08:00:00Z"),
        session("00-80-00-00-a0-00-0f-05", "null", "null"),
        session("00-80-00-00-a0-00-0f-06", "", ""),
        session("00800000a0000f07", "2001-01-01T00:00:00Z", "null"),
    ];
    let cutoff = Date::new(2024, 5, 10);
    assert_eq!(
        select_old(&active, &cutoff),
        Ok(vec![eui(1), eui(3), eui(7)])
    );
    assert_eq!(select_old(&active, &Date::new(2001, 1, 1)), Ok(vec![]));
    assert_eq!(select_old(&vec![], &cutoff), Ok(vec![]));
}

#[test]
fn only_old_sessions_have_their_identity_read() {
    let active = vec![
        session("no identity", "2024-05-10T00:00:00Z", "null"),
        session("00-80-00-00-a0-00-0f-01", "2024-05-01T00:00:00Z", "null"),
        session("00-80-00-00-a0-00-0f-0", "null", "2024-05-02T00:00:00Z"),
        session("zz-80-00-00-a0-00-0f-01", "2024-05-02T00:00:00Z", "null"),
    ];
    assert_eq!(
        select_old(&active, &Date::new(2024, 5, 2)),
        Ok(vec![eui(1)])
    );
    assert_eq!(
        select_old(&active, &Date::new(2024, 5, 3)),
        Err(ParseError::LengthMismatch)
    );
}

#[test]
fn sessions_of_removed_identities_are_evicted() {
    let active = vec![
        session("00-80-00-00-a0-00-0f-01", "null", "null"),
        session("00-80-00-00-a0-00-0f-02", "null", "null"),
        session("00800000A0000F03", "null", "null"),
        session("00-80-00-00-a0-00-0f-01", "null", "null"),
    ];
    let plan = sessions_to_evict(&active, &[eui(3), eui(1), eui(9)]);
    assert_eq!(plan.sessions, vec![eui(1), eui(3), eui(1)]);
    assert_eq!(plan.failure, None);
    let none = sessions_to_evict(&active, &[]);
    assert_eq!(none.sessions, vec![]);
    assert_eq!(none.failure, None);
}

#[test]
fn the_search_for_sessions_ends_at_an_unreadable_identity() {
    let active = vec![
        session("00-80-00-00-a0-00-0f-01", "null", "null"),
        session("00-80-00-00-a0-00-0f-g2", "null", "null"),
        session("00-80-00-00-a0-00-0f-03", "null", "null"),
    ];
    let plan = sessions_to_evict(&active, &[eui(1), eui(3)]);
    assert_eq!(plan.sessions, vec![eui(1)]);
    assert_eq!(plan.failure, Some(ParseError::InvalidDigit));
}

#[test]
fn the_path_of_a_session() {
    assert_eq!(
        session_path("00-80-00-00-a0-00-0f-01"),
        "lora/devices/00-80-00-00-a0-00-0f-01"
    );
    assert_eq!(session_path(""), "lora/devices/");
    assert_eq!(
        session_path(&eui(0xab).to_string()),
        "lora/devices/00-80-00-00-a0-00-0f-ab"
    );
}
