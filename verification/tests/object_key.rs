use chrono::{TimeZone, Utc};
use request_trace::object_key::{format_object_key, ObjectTime, FIRST_SECOND, LAST_SECOND};

fn hour(year: i32, month: u32, day: u32, hour: u32, min: u32, sec: u32) -> ObjectTime {
    let now = Utc.with_ymd_and_hms(year, month, day, hour, min, sec).unwrap();
    ObjectTime::at(now.timestamp()).unwrap()
}

#[test]
fn object_key_is_hour_partitioned_and_writer_scoped() {
    let now = hour(2026, 7, 16, 9, 30, 0);
    assert_eq!(
        format_object_key("traces", now, "pod-a", "deadbeef", 42),
        "traces/2026/07/16/09/pod-a-deadbeef-000042.jsonl.gz"
    );
}

#[test]
fn object_key_does_not_double_slash_a_padded_prefix() {
    let now = hour(2026, 1, 2, 3, 0, 0);
    assert_eq!(
        format_object_key("/traces/dev/", now, "pod-a", "deadbeef", 0),
        "traces/dev/2026/01/02/03/pod-a-deadbeef-000000.jsonl.gz"
    );
}

#[test]
fn slashes_around_a_prefix_do_not_reach_the_key() {
    let now = hour(2026, 1, 2, 3, 0, 0);
    let plain = format_object_key("traces/dev", now, "pod-a", "deadbeef", 7);
    for prefix in ["/traces/dev", "traces/dev///", "//traces/dev/"] {
        assert_eq!(format_object_key(prefix, now, "pod-a", "deadbeef", 7), plain);
    }
    let inner = format_object_key("traces//dev", now, "pod-a", "deadbeef", 7);
    assert_eq!(inner, "traces//dev/2026/01/02/03/pod-a-deadbeef-000007.jsonl.gz");
}

#[test]
fn an_empty_prefix_leaves_a_leading_slash() {
    let now = hour(2026, 1, 2, 3, 0, 0);
    for prefix in ["", "/", "///"] {
        assert_eq!(
            format_object_key(prefix, now, "pod-a", "deadbeef", 1),
            "/2026/01/02/03/pod-a-deadbeef-000001.jsonl.gz"
        );
    }
}

#[test]
fn wide_numbers_outgrow_their_padding() {
    let now = ObjectTime { year: 12026, month: 12, day: 31, hour: 23 };
    assert_eq!(
        format_object_key("p", now, "i", "s", 1_234_567),
        "p/12026/12/31/23/i-s-1234567.jsonl.gz"
    );
    assert_eq!(
        format_object_key("p", now, "i", "s", u64::MAX),
        "p/12026/12/31/23/i-s-18446744073709551615.jsonl.gz"
    );
}

#[test]
fn years_are_padded_as_numbers() {
    for (year, text) in [(7, "0007"), (0, "0000"), (-5, "-005"), (-1234, "-1234"), (i32::MIN, "-2147483648")] {
        let now = ObjectTime { year, month: 1, day: 1, hour: 0 };
        let key = format_object_key("p", now, "i", "s", 0);
        assert_eq!(key, format!("p/{text}/01/01/00/i-s-000000.jsonl.gz"));
        assert_eq!(format!("{year:04}"), text);
    }
}

#[test]
fn keys_of_different_writers_segments_and_hours_differ() {
    let now = hour(2026, 7, 16, 9, 30, 0);
    let later = hour(2026, 7, 16, 10, 0, 0);
    let key = format_object_key("traces", now, "pod-a", "deadbeef", 42);
    assert_ne!(key, format_object_key("traces", later, "pod-a", "deadbeef", 42));
    assert_ne!(key, format_object_key("traces", now, "pod-b", "deadbeef", 42));
    assert_ne!(key, format_object_key("traces", now, "pod-a", "deadbee0", 42));
    assert_ne!(key, format_object_key("traces", now, "pod-a", "deadbeef", 43));
}

#[test]
fn all_seconds_of_an_hour_give_the_same_time() {
    let start = Utc.with_ymd_and_hms(2024, 2, 29, 23, 0, 0).unwrap().timestamp();
    let expected = ObjectTime { year: 2024, month: 2, day: 29, hour: 23 };
    assert_eq!(ObjectTime::at(start), Some(expected));
    assert_eq!(ObjectTime::at(start + 3599), Some(expected));
    assert_eq!(
        ObjectTime::at(start + 3600),
        Some(ObjectTime { year: 2024, month: 3, day: 1, hour: 0 })
    );
    assert_eq!(
        ObjectTime::at(-1),
        Some(ObjectTime { year: 1969, month: 12, day: 31, hour: 23 })
    );
}

#[test]
fn the_calendar_has_a_first_and_a_last_second() {
    assert_eq!(
        ObjectTime::at(FIRST_SECOND),
        Some(ObjectTime { year: -262143, month: 1, day: 1, hour: 0 })
    );
    assert_eq!(ObjectTime::at(FIRST_SECOND - 1), None);
    assert_eq!(
        ObjectTime::at(LAST_SECOND),
        Some(ObjectTime { year: 262142, month: 12, day: 31, hour: 23 })
    );
    assert_eq!(ObjectTime::at(LAST_SECOND + 1), None);
    assert_eq!(ObjectTime::at(i64::MAX), None);
}

#[test]
fn now_lies_between_two_readings_of_the_clock() {
    let before = ObjectTime::at(Utc::now().timestamp()).unwrap();
    let now = ObjectTime::now();
    let after = ObjectTime::at(Utc::now().timestamp()).unwrap();
    assert!(now == before || now == after);
}

#[test]
fn startup_and_number_tell_keys_apart_under_any_prefix() {
    let now = hour(2026, 7, 16, 9, 30, 0);
    let keys = [
        format_object_key("a", now, "pod-b", "deadbeef", 1),
        format_object_key("a", now, "pod-b", "deadbee0", 1),
        format_object_key("a", now, "pod-b", "deadbeef", 2),
        format_object_key("a/2026", now, "pod", "deadbee0", 2),
    ];
    for (i, key) in keys.iter().enumerate() {
        for other in &keys[i + 1..] {
            assert_ne!(key, other);
        }
    }
}
