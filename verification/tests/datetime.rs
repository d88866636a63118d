use orjson::buffer::{DateTimeBuffer, CAPACITY};
use orjson::datetime::{
    Date, DateTime, DateTimeError, OffsetProtocol, Time, TimeError, TzInfo, UtcOffset,
};
use orjson::opt::{is_set, Opt, NAIVE_UTC, OMIT_MICROSECONDS, UTC_Z};

fn fixed(days: i32, seconds: i32) -> Option<TzInfo> {
    Some(TzInfo { convert: false, normalize: false, dst: true, offset: UtcOffset { days, seconds } })
}

fn at_noon(tzinfo: Option<TzInfo>, opts: Opt) -> String {
    DateTime::new(2000, 1, 2, 12, 0, 0, 0, tzinfo, opts).serialize().unwrap()
}

fn offset_text(days: i32, seconds: i32, opts: Opt) -> String {
    let mut buf = DateTimeBuffer::new();
    UtcOffset { days, seconds }.write_buf(&mut buf, opts);
    String::from_utf8(buf.as_slice().to_vec()).unwrap()
}

#[test]
fn date_is_written_as_year_month_day() {
    let mut buf = DateTimeBuffer::new();
    Date::new(2023, 1, 5).write_buf(&mut buf);
    assert_eq!(buf.as_slice(), "2023-01-05".as_bytes());
}

#[test]
fn date_serializes_to_text() {
    assert_eq!(Date::new(2023, 1, 5).serialize(), "2023-01-05");
    assert_eq!(Date::new(1999, 12, 31).serialize(), "1999-12-31");
}

#[test]
fn year_keeps_its_natural_width() {
    assert_eq!(Date::new(5, 1, 1).serialize(), "5-01-01");
    assert_eq!(Date::new(987, 10, 9).serialize(), "987-10-09");
    assert_eq!(Date::new(9999, 12, 31).serialize(), "9999-12-31");
}

#[test]
fn date_is_appended_to_what_the_buffer_holds() {
    let mut buf = DateTimeBuffer::new();
    buf.push(b'[').unwrap();
    Date::new(2023, 1, 5).write_buf(&mut buf);
    assert_eq!(buf.as_slice(), "[2023-01-05".as_bytes());
}

#[test]
fn calendar_dates_are_valid() {
    assert!(Date::new(2023, 1, 5).is_valid());
    assert!(Date::new(1, 1, 1).is_valid());
    assert!(!Date::new(0, 1, 1).is_valid());
    assert!(!Date::new(2023, 13, 1).is_valid());
    assert!(!Date::new(2023, 1, 32).is_valid());
    assert!(!Date::new(10000, 1, 1).is_valid());
}

#[test]
fn time_is_written_in_two_digit_fields() {
    let time = Time::new(9, 5, 0, 0, false, 0).unwrap();
    assert_eq!(time.serialize(), "09:05:00");
}

#[test]
fn time_with_microseconds_has_six_digits() {
    let time = Time::new(9, 5, 0, 250000, false, 0).unwrap();
    assert_eq!(time.serialize(), "09:05:00.250000");
    let time = Time::new(23, 59, 59, 5, false, 0).unwrap();
    assert_eq!(time.serialize(), "23:59:59.000005");
    let time = Time::new(0, 0, 0, 999999, false, 0).unwrap();
    assert_eq!(time.serialize(), "00:00:00.999999");
}

#[test]
fn microseconds_are_left_out_on_request() {
    let time = Time::new(9, 5, 0, 250000, false, OMIT_MICROSECONDS).unwrap();
    assert_eq!(time.serialize(), "09:05:00");
}

#[test]
fn time_write_buf_appends() {
    let mut buf = DateTimeBuffer::new();
    Time::new(1, 2, 3, 40, false, 0).unwrap().write_buf(&mut buf);
    assert_eq!(buf.as_slice(), "01:02:03.000040".as_bytes());
}

#[test]
fn time_with_timezone_is_refused() {
    assert_eq!(Time::new(9, 5, 0, 0, true, 0), Err(TimeError::HasTimezone));
    assert_eq!(Time::new(9, 5, 0, 0, true, OMIT_MICROSECONDS), Err(TimeError::HasTimezone));
    assert!(Time::new(9, 5, 0, 0, false, 0).is_ok());
}

#[test]
fn clock_times_are_valid() {
    assert!(Time::new(23, 59, 59, 999999, false, 0).unwrap().is_valid());
    assert!(!Time::new(24, 0, 0, 0, false, 0).unwrap().is_valid());
    assert!(!Time::new(0, 60, 0, 0, false, 0).unwrap().is_valid());
    assert!(!Time::new(0, 0, 60, 0, false, 0).unwrap().is_valid());
    assert!(!Time::new(0, 0, 0, 1000000, false, 0).unwrap().is_valid());
}

#[test]
fn naive_datetime_has_no_offset() {
    assert_eq!(at_noon(None, 0), "2000-01-02T12:00:00");
    assert_eq!(at_noon(None, UTC_Z), "2000-01-02T12:00:00");
}

#[test]
fn naive_datetime_taken_as_utc_ends_with_z() {
    assert_eq!(at_noon(None, NAIVE_UTC | UTC_Z), "2000-01-02T12:00:00Z");
}

#[test]
fn naive_datetime_taken_as_utc_ends_with_zero_offset() {
    assert_eq!(at_noon(None, NAIVE_UTC), "2000-01-02T12:00:00+00:00");
}

#[test]
fn aware_datetime_at_utc() {
    assert_eq!(at_noon(fixed(0, 0), 0), "2000-01-02T12:00:00+00:00");
    assert_eq!(at_noon(fixed(0, 0), UTC_Z), "2000-01-02T12:00:00Z");
}

#[test]
fn offset_east_is_written_with_plus() {
    assert_eq!(at_noon(fixed(0, 37800), 0), "2000-01-02T12:00:00+10:30");
    assert_eq!(offset_text(0, 37800, 0), "+10:30");
    assert_eq!(offset_text(0, 37800, UTC_Z), "+10:30");
}

#[test]
fn offset_west_is_written_with_hyphen() {
    assert_eq!(at_noon(fixed(-1, 68400), 0), "2000-01-02T12:00:00-05:00");
    assert_eq!(offset_text(-1, 68400, 0), "-05:00");
    assert_eq!(offset_text(-1, 86400 - 37800, 0), "-10:30");
}

#[test]
fn offset_is_rounded_to_the_nearest_minute() {
    assert_eq!(offset_text(0, 19 * 60 + 32, 0), "+00:20");
    assert_eq!(offset_text(0, 19 * 60 + 30, 0), "+00:20");
    assert_eq!(offset_text(0, 19 * 60 + 29, 0), "+00:19");
    assert_eq!(offset_text(-1, 86400 - (19 * 60 + 32), 0), "-00:20");
    assert_eq!(offset_text(0, 30, 0), "+00:01");
    assert_eq!(offset_text(0, 29, 0), "+00:00");
    assert_eq!(offset_text(-1, 86400 - 30, 0), "-00:01");
}

#[test]
fn rounding_leaves_the_hours_alone() {
    assert_eq!(offset_text(0, 3599, 0), "+00:60");
    assert_eq!(offset_text(0, 59 * 60 + 30, 0), "+00:60");
    assert_eq!(offset_text(0, 59 * 60 + 29, 0), "+00:59");
    assert_eq!(offset_text(0, 86399, 0), "+23:60");
    assert_eq!(offset_text(-1, 1, 0), "-23:60");
}

#[test]
fn zero_seconds_count_as_utc_whatever_the_days() {
    assert_eq!(offset_text(0, 0, UTC_Z), "Z");
    assert_eq!(offset_text(0, 0, 0), "+00:00");
    assert_eq!(offset_text(-1, 0, 0), "+00:00");
}

#[test]
fn datetime_with_microseconds_and_offset() {
    let datetime = DateTime::new(2018, 6, 1, 2, 3, 4, 123, fixed(0, 28800), 0);
    assert_eq!(datetime.serialize().unwrap(), "2018-06-01T02:03:04.000123+08:00");
    let datetime = DateTime::new(2018, 6, 1, 2, 3, 4, 123, fixed(0, 28800), OMIT_MICROSECONDS);
    assert_eq!(datetime.serialize().unwrap(), "2018-06-01T02:03:04+08:00");
}

#[test]
fn longest_datetime_fills_the_buffer() {
    let datetime = DateTime::new(9999, 12, 31, 23, 59, 59, 999999, fixed(-1, 60), 0);
    assert!(datetime.is_valid());
    let mut buf = DateTimeBuffer::new();
    assert_eq!(datetime.write_buf(&mut buf), Ok(()));
    assert_eq!(buf.as_slice(), "9999-12-31T23:59:59.999999-23:59".as_bytes());
    assert_eq!(buf.as_slice().len(), CAPACITY);
}

#[test]
fn field_values_come_from_the_datetime_not_the_offset() {
    let datetime = DateTime::new(2000, 1, 1, 0, 0, 0, 0, fixed(-1, 68400), 0);
    assert_eq!(datetime.serialize().unwrap(), "2000-01-01T00:00:00-05:00");
}

#[test]
fn unknown_timezone_is_refused() {
    let tz = TzInfo {
        convert: false,
        normalize: false,
        dst: false,
        offset: UtcOffset { days: 0, seconds: 3600 },
    };
    let datetime = DateTime::new(2000, 1, 2, 12, 0, 0, 0, Some(tz), 0);
    assert_eq!(datetime.serialize(), Err(DateTimeError::LibraryUnsupported));
    let mut buf = DateTimeBuffer::new();
    buf.push(b'x').unwrap();
    assert_eq!(datetime.write_buf(&mut buf), Err(DateTimeError::LibraryUnsupported));
    assert_eq!(buf.as_slice(), "x".as_bytes());
}

#[test]
fn protocol_is_chosen_in_order_of_capability() {
    let offset = UtcOffset { days: 0, seconds: 0 };
    let tz = |convert, normalize, dst| TzInfo { convert, normalize, dst, offset };
    assert_eq!(tz(true, true, true).protocol(), Some(OffsetProtocol::Datetime));
    assert_eq!(tz(true, false, false).protocol(), Some(OffsetProtocol::Datetime));
    assert_eq!(tz(false, true, true).protocol(), Some(OffsetProtocol::Normalized));
    assert_eq!(tz(false, true, false).protocol(), Some(OffsetProtocol::Normalized));
    assert_eq!(tz(false, false, true).protocol(), Some(OffsetProtocol::Timezone));
    assert_eq!(tz(false, false, false).protocol(), None);
}

#[test]
fn every_known_protocol_formats() {
    for (convert, normalize, dst) in [(true, false, false), (false, true, false), (false, false, true)] {
        let tz = TzInfo { convert, normalize, dst, offset: UtcOffset { days: 0, seconds: 3600 } };
        assert_eq!(at_noon(Some(tz), 0), "2000-01-02T12:00:00+01:00");
    }
}

#[test]
fn datetime_validity() {
    assert!(DateTime::new(2000, 1, 2, 12, 0, 0, 0, None, 0).is_valid());
    assert!(DateTime::new(2000, 1, 2, 12, 0, 0, 0, fixed(-1, 86399), 0).is_valid());
    assert!(!DateTime::new(2000, 1, 2, 12, 0, 0, 0, fixed(0, 86400), 0).is_valid());
    assert!(!DateTime::new(2000, 1, 2, 12, 0, 0, 0, fixed(0, -1), 0).is_valid());
    assert!(!DateTime::new(2000, 1, 2, 24, 0, 0, 0, None, 0).is_valid());
    assert!(!DateTime::new(0, 1, 2, 12, 0, 0, 0, None, 0).is_valid());
}

#[test]
fn errors_have_distinct_fixed_messages() {
    let time = TimeError::HasTimezone.message();
    let datetime = DateTimeError::LibraryUnsupported.message();
    assert!(!time.is_empty());
    assert!(!datetime.is_empty());
    assert_ne!(time, datetime);
    assert_eq!(time, TimeError::HasTimezone.message());
}

#[test]
fn switches_are_independent_bits() {
    assert!(!is_set(0, NAIVE_UTC));
    assert!(!is_set(0, OMIT_MICROSECONDS));
    assert!(!is_set(0, UTC_Z));
    assert!(is_set(NAIVE_UTC | UTC_Z, NAIVE_UTC));
    assert!(is_set(NAIVE_UTC | UTC_Z, UTC_Z));
    assert!(!is_set(NAIVE_UTC | UTC_Z, OMIT_MICROSECONDS));
    assert!(is_set(OMIT_MICROSECONDS, OMIT_MICROSECONDS));
    assert!(!is_set(OMIT_MICROSECONDS, NAIVE_UTC));
}

#[test]
fn buffer_starts_empty_and_keeps_order() {
    let mut buf = DateTimeBuffer::new();
    assert!(buf.as_slice().is_empty());
    assert_eq!(buf.push(b'a'), Ok(()));
    assert_eq!(buf.extend_from_slice(b"bc"), Ok(()));
    assert_eq!(buf.push(b'd'), Ok(()));
    assert_eq!(buf.as_slice(), b"abcd");
}

#[test]
fn full_buffer_takes_nothing_more() {
    let mut buf = DateTimeBuffer::new();
    assert_eq!(buf.extend_from_slice(&[b'.'; 31]), Ok(()));
    assert_eq!(buf.extend_from_slice(b"ab"), Err(()));
    assert_eq!(buf.as_slice().len(), 31);
    assert_eq!(buf.push(b'a'), Ok(()));
    assert_eq!(buf.push(b'b'), Err(b'b'));
    assert_eq!(buf.extend_from_slice(b""), Ok(()));
    assert_eq!(buf.as_slice().len(), CAPACITY);
    assert_eq!(buf.as_slice()[31], b'a');
}
