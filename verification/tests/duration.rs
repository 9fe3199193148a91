use video_splitter::clock::{parse_duration, ClockTime};
use video_splitter::errors::SplitError;

fn chars(s: &str) -> Vec<char> {
    s.chars().collect()
}

#[test]
fn plain_duration_parses() {
    let input = chars("01:02:03");
    let (ct, pos) = parse_duration(&input, 0, false).unwrap();
    assert_eq!(
        ct,
        ClockTime { hours: 1, minutes: 2, seconds: 3, millis: None }
    );
    assert_eq!(pos, 8);
}

#[test]
fn duration_with_millis_parses() {
    let input = chars("00:00:01,500");
    let (ct, pos) = parse_duration(&input, 0, true).unwrap();
    assert_eq!(
        ct,
        ClockTime { hours: 0, minutes: 0, seconds: 1, millis: Some(500) }
    );
    assert_eq!(pos, 12);
}

#[test]
fn duration_leaves_remainder_unconsumed() {
    let input = chars("1:2:3 rest");
    let (ct, pos) = parse_duration(&input, 0, false).unwrap();
    assert_eq!(
        ct,
        ClockTime { hours: 1, minutes: 2, seconds: 3, millis: None }
    );
    assert_eq!(pos, 5);
}

#[test]
fn wide_hours_field_is_kept() {
    let input = chars("4294967295:59:59");
    let (ct, _) = parse_duration(&input, 0, false).unwrap();
    assert_eq!(ct.hours, 4294967295);
    assert_eq!(ct.minutes, 59);
    assert_eq!(ct.seconds, 59);
}

#[test]
fn overflowing_hours_field_is_malformed() {
    let input = chars("4294967296:00:00");
    assert_eq!(
        parse_duration(&input, 0, false),
        Err(SplitError::MalformedDuration)
    );
}

#[test]
fn out_of_range_minutes_are_malformed() {
    let input = chars("0:60:00");
    assert_eq!(
        parse_duration(&input, 0, false),
        Err(SplitError::MalformedDuration)
    );
}

#[test]
fn out_of_range_seconds_are_malformed() {
    let input = chars("0:00:60");
    assert_eq!(
        parse_duration(&input, 0, false),
        Err(SplitError::MalformedDuration)
    );
}

#[test]
fn out_of_range_millis_are_malformed() {
    let input = chars("0:00:00,1000");
    assert_eq!(
        parse_duration(&input, 0, true),
        Err(SplitError::MalformedDuration)
    );
}

#[test]
fn missing_colon_is_malformed() {
    let input = chars("0102:03");
    assert_eq!(
        parse_duration(&input, 0, false),
        Err(SplitError::MalformedDuration)
    );
}

#[test]
fn missing_millis_is_malformed_in_subtitle_context() {
    let input = chars("00:00:01");
    assert_eq!(
        parse_duration(&input, 0, true),
        Err(SplitError::MalformedDuration)
    );
}

#[test]
fn empty_field_is_malformed() {
    let input = chars("1::3");
    assert_eq!(
        parse_duration(&input, 0, false),
        Err(SplitError::MalformedDuration)
    );
}

#[test]
fn leading_zeros_round_trip_through_formatting() {
    let input = chars("07:09:03");
    let (ct, _) = parse_duration(&input, 0, false).unwrap();
    assert_eq!(
        ct,
        ClockTime { hours: 7, minutes: 9, seconds: 3, millis: None }
    );
    let mut out: Vec<char> = Vec::new();
    video_splitter::clock::push_clock_hms(&mut out, &ct, ':');
    let text: String = out.into_iter().collect();
    assert_eq!(text, "07:09:03");
}

#[test]
fn total_seconds_counts_whole_seconds() {
    let ct = ClockTime { hours: 1, minutes: 2, seconds: 3, millis: None };
    assert_eq!(ct.total_seconds(), 3723);
}
