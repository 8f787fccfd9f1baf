use libs_tools::survey::{parse_i8, parse_timestamp, split_choices, TimestampError};

#[test]
fn choices_split_at_semicolons() {
    assert_eq!(split_choices("a;b;;c"), vec!["a", "b", "", "c"]);
    assert_eq!(split_choices("only one"), vec!["only one"]);
    assert_eq!(split_choices("x;"), vec!["x", ""]);
    assert_eq!(split_choices(""), Vec::<String>::new());
}

#[test]
fn choices_join_back() {
    for s in ["a;b;;c", "x;", ";", "plain"] {
        assert_eq!(split_choices(s).join(";"), s);
    }
}

#[test]
fn timestamps_read_with_their_offset() {
    let t = parse_timestamp("2020/12/11 1:02:03 AM GMT+10").expect("reads");
    assert_eq!(t.datetime, "2020/12/11 1:02:03 AM");
    assert_eq!(t.offset_hours, 10);
    assert_eq!(t.value.offset(), time::UtcOffset::hours(10));
    assert_eq!(t.value.year(), 2020);
    let w = parse_timestamp("2020/12/11 11:59:00 PM GMT-5").unwrap();
    assert_eq!(w.offset_hours, -5);
    assert_eq!(w.value.offset(), time::UtcOffset::hours(-5));
    assert_eq!(parse_timestamp("2020/12/11 1:02:03 AM GMT").err(), Some(TimestampError::InvalidOffset));
    let z = parse_timestamp("2020/12/11 1:02:03 AM GMT+0 GMT+5").unwrap();
    assert_eq!(z.offset_hours, 0);
}

#[test]
fn timestamp_errors() {
    assert_eq!(parse_timestamp("2020/12/11 1:02:03 AM").err(), Some(TimestampError::MissingOffset));
    assert_eq!(parse_timestamp("yesterday GMT+1").err(), Some(TimestampError::InvalidDatetime));
    assert_eq!(parse_timestamp("2020/12/11 1:02:03 AM GMT+x").err(), Some(TimestampError::InvalidOffset));
    assert_eq!(parse_timestamp("2020/12/11 1:02:03 AM GMT+200").err(), Some(TimestampError::InvalidOffset));
}

#[test]
fn small_numbers_read_as_std_does() {
    let p = |s: &str| parse_i8(&s.chars().collect());
    assert_eq!(p("127"), Some(127));
    assert_eq!(p("-128"), Some(-128));
    assert_eq!(p("+5"), Some(5));
    assert_eq!(p("128"), None);
    assert_eq!(p("-129"), None);
    assert_eq!(p("-"), None);
    assert_eq!(p(""), None);
    assert_eq!(p("1 "), None);
    for s in ["0", "-0", "+12", "99", "007", "1000", "-5x"] {
        assert_eq!(p(s), s.parse::<i8>().ok());
    }
}

#[test]
fn timestamps_give_their_fields() {
    let w = parse_timestamp("2020/12/11 11:59:07 PM GMT-5").unwrap();
    assert_eq!((w.local.year, w.local.month, w.local.day), (2020, 12, 11));
    assert_eq!((w.local.hour, w.local.minute, w.local.second), (23, 59, 7));
    assert_eq!(w.value.hour(), 23);
}

#[test]
fn timestamps_that_leave_the_supported_years_are_refused() {
    assert_eq!(
        parse_timestamp("+100000/12/31 11:00:00 PM GMT-10").err(),
        Some(TimestampError::OutOfRange)
    );
    assert_eq!(
        parse_timestamp("-100000/01/01 1:00:00 AM GMT+2").err(),
        Some(TimestampError::OutOfRange)
    );
    let edge = parse_timestamp("+100000/12/31 11:00:00 PM GMT+0").unwrap();
    assert_eq!(edge.local.year, 100000);
    let far = parse_timestamp("9999/12/31 11:00:00 PM GMT-10").unwrap();
    assert_eq!(far.local.year, 9999);
}

#[test]
fn timestamps_give_their_moment() {
    let t = parse_timestamp("2020/12/11 1:02:03 AM GMT+10").unwrap();
    assert_eq!(t.utc_seconds, 1607612523);
    assert_eq!(t.utc_seconds, t.value.unix_timestamp());
    let w = parse_timestamp("2020/12/11 11:59:07 PM GMT-5").unwrap();
    assert_eq!(w.utc_seconds, 1607749147);
    let leap = parse_timestamp("2000/02/29 12:00:00 PM GMT+0").unwrap();
    assert_eq!(leap.utc_seconds, 951825600);
    let first = parse_timestamp("0001/01/01 12:00:00 AM GMT+0").unwrap();
    assert_eq!(first.utc_seconds, -62135596800);
    for v in [
        "1969/12/31 11:59:59 PM GMT+0",
        "-0001/03/01 3:00:00 PM GMT-7",
        "+100000/12/31 11:00:00 PM GMT+0",
        "-100000/01/01 5:00:00 AM GMT+5",
    ] {
        let t = parse_timestamp(v).unwrap();
        assert_eq!(t.utc_seconds, t.value.unix_timestamp(), "{v}");
    }
}
