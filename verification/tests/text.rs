use notesock::text::{to_decimal, to_human};

#[test]
fn writes_numbers_in_decimal() {
    assert_eq!(to_decimal(0), "0");
    assert_eq!(to_decimal(7), "7");
    assert_eq!(to_decimal(10), "10");
    assert_eq!(to_decimal(512), "512");
    assert_eq!(to_decimal(1234567890), "1234567890");
    assert_eq!(to_decimal(u64::MAX), "18446744073709551615");
}

#[test]
fn tells_up_to_a_minute_in_seconds() {
    assert_eq!(to_human(0), "0s");
    assert_eq!(to_human(1), "1s");
    assert_eq!(to_human(59), "59s");
    assert_eq!(to_human(60), "60s");
}

#[test]
fn tells_whole_minutes_without_seconds() {
    assert_eq!(to_human(120), "2m");
    assert_eq!(to_human(240), "4m");
    assert_eq!(to_human(3600), "60m");
}

#[test]
fn tells_odd_seconds_after_the_minutes() {
    assert_eq!(to_human(61), "1m 1s");
    assert_eq!(to_human(125), "2m 5s");
    assert_eq!(to_human(3599), "59m 59s");
}
