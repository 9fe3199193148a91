use video_splitter::clock::ClockTime;
use video_splitter::errors::SplitError;
use video_splitter::parser::timestamp_parser::{process_timestamps, Timestamp};
use video_splitter::parser::{parse_srt, parse_timestamp};

fn ct(hours: u32, minutes: u32, seconds: u32) -> ClockTime {
    ClockTime { hours, minutes, seconds, millis: None }
}

fn ctm(hours: u32, minutes: u32, seconds: u32, millis: u32) -> ClockTime {
    ClockTime { hours, minutes, seconds, millis: Some(millis) }
}

#[test]
fn marker_text_derives_three_intervals() {
    let r = parse_timestamp("00:00:00 Intro\n00:01:30 Chapter 2\n00:05:00 Outro").unwrap();
    assert_eq!(r.len(), 3);
    assert_eq!(r[0].index, 1);
    assert_eq!(r[0].start, ct(0, 0, 0));
    assert_eq!(r[0].end, Some(ct(0, 1, 30)));
    assert_eq!(r[0].title, "Intro");
    assert_eq!(r[1].index, 2);
    assert_eq!(r[1].start, ct(0, 1, 30));
    assert_eq!(r[1].end, Some(ct(0, 5, 0)));
    assert_eq!(r[1].title, "Chapter 2");
    assert_eq!(r[2].index, 3);
    assert_eq!(r[2].start, ct(0, 5, 0));
    assert_eq!(r[2].end, None);
    assert_eq!(r[2].title, "Outro");
}

#[test]
fn empty_marker_text_fails() {
    assert_eq!(
        parse_timestamp(""),
        Err(SplitError::EmptyOrMalformedMarkerList)
    );
}

#[test]
fn whitespace_only_marker_text_fails() {
    assert_eq!(
        parse_timestamp("  \n\t \n "),
        Err(SplitError::EmptyOrMalformedMarkerList)
    );
}

#[test]
fn malformed_marker_line_fails_whole_list() {
    assert_eq!(
        parse_timestamp("00:00:00 Intro\nnot a marker"),
        Err(SplitError::EmptyOrMalformedMarkerList)
    );
}

#[test]
fn marker_without_label_fails() {
    assert_eq!(
        parse_timestamp("00:00:00"),
        Err(SplitError::EmptyOrMalformedMarkerList)
    );
}

#[test]
fn marker_with_out_of_range_minutes_fails() {
    assert_eq!(
        parse_timestamp("00:60:00 Intro"),
        Err(SplitError::EmptyOrMalformedMarkerList)
    );
}

#[test]
fn marker_label_keeps_inner_and_trailing_spaces() {
    let r = parse_timestamp("0:0:0 a  b \n0:1:0 c").unwrap();
    assert_eq!(r[0].title, "a  b ");
    assert_eq!(r[1].title, "c");
}

#[test]
fn blank_lines_between_markers_are_ignored() {
    let r = parse_timestamp("\n\n00:00:00 One\n\n  \n00:00:10 Two\n\n").unwrap();
    assert_eq!(r.len(), 2);
    assert_eq!(r[0].title, "One");
    assert_eq!(r[1].title, "Two");
}

#[test]
fn single_marker_gets_open_end() {
    let r = parse_timestamp("01:02:03 Only").unwrap();
    assert_eq!(r.len(), 1);
    assert_eq!(r[0].index, 1);
    assert_eq!(r[0].start, ct(1, 2, 3));
    assert_eq!(r[0].end, None);
}

#[test]
fn non_monotonic_markers_are_kept_permissively() {
    let r = parse_timestamp("00:10:00 Late\n00:01:00 Early").unwrap();
    assert_eq!(r.len(), 2);
    assert_eq!(r[0].start, ct(0, 10, 0));
    assert_eq!(r[0].end, Some(ct(0, 1, 0)));
}

#[test]
fn derivation_indexes_and_chains_ends() {
    let mut v = vec![
        Timestamp { index: 0, start: ct(0, 0, 0), end: None, title: "a".to_string() },
        Timestamp { index: 0, start: ct(0, 2, 0), end: None, title: "b".to_string() },
        Timestamp { index: 0, start: ct(0, 4, 0), end: None, title: "c".to_string() },
    ];
    process_timestamps(&mut v);
    assert_eq!(v.len(), 3);
    assert_eq!(v[0].index, 1);
    assert_eq!(v[1].index, 2);
    assert_eq!(v[2].index, 3);
    assert_eq!(v[0].end, Some(ct(0, 2, 0)));
    assert_eq!(v[1].end, Some(ct(0, 4, 0)));
    assert_eq!(v[2].end, None);
    assert_eq!(v[0].title, "a");
    assert_eq!(v[1].title, "b");
    assert_eq!(v[2].title, "c");
}

#[test]
fn subtitle_block_parses_two_cues() {
    let r = parse_srt("1\n00:00:01,000 --> 00:00:02,500\nHello\n\n2\n00:00:03,000 --> 00:00:04,000\nWorld")
        .unwrap();
    assert_eq!(r.len(), 2);
    assert_eq!(r[0].id, 1);
    assert_eq!(r[0].start, ctm(0, 0, 1, 0));
    assert_eq!(r[0].end, ctm(0, 0, 2, 500));
    assert_eq!(r[0].content, vec!["Hello".to_string()]);
    assert_eq!(r[1].id, 2);
    assert_eq!(r[1].start, ctm(0, 0, 3, 0));
    assert_eq!(r[1].end, ctm(0, 0, 4, 0));
    assert_eq!(r[1].content, vec!["World".to_string()]);
}

#[test]
fn cue_lines_are_trimmed_and_kept_in_order() {
    let r = parse_srt("1\n00:00:01,000 --> 00:00:02,500\n  Hello there  \n\tsecond line\t").unwrap();
    assert_eq!(r.len(), 1);
    assert_eq!(
        r[0].content,
        vec!["Hello there".to_string(), "second line".to_string()]
    );
}

#[test]
fn consecutive_non_blank_lines_belong_to_one_cue() {
    let r = parse_srt("1\n00:00:01,000 --> 00:00:02,500\nHello\n2\nWorld").unwrap();
    assert_eq!(r.len(), 1);
    assert_eq!(
        r[0].content,
        vec!["Hello".to_string(), "2".to_string(), "World".to_string()]
    );
}

#[test]
fn empty_subtitle_block_fails() {
    assert_eq!(parse_srt(""), Err(SplitError::EmptyOrMalformedCueList));
    assert_eq!(parse_srt(" \n \n"), Err(SplitError::EmptyOrMalformedCueList));
}

#[test]
fn cue_without_millis_fails() {
    assert_eq!(
        parse_srt("1\n00:00:01 --> 00:00:02\nHello"),
        Err(SplitError::EmptyOrMalformedCueList)
    );
}

#[test]
fn cue_without_text_lines_fails() {
    assert_eq!(
        parse_srt("1\n00:00:01,000 --> 00:00:02,500\n\n2\n00:00:03,000 --> 00:00:04,000\nWorld"),
        Err(SplitError::EmptyOrMalformedCueList)
    );
}

#[test]
fn cue_with_malformed_arrow_fails() {
    assert_eq!(
        parse_srt("1\n00:00:01,000 -> 00:00:02,500\nHello"),
        Err(SplitError::EmptyOrMalformedCueList)
    );
}

#[test]
fn cue_with_trailing_garbage_on_time_line_fails() {
    assert_eq!(
        parse_srt("1\n00:00:01,000 --> 00:00:02,500 x\nHello"),
        Err(SplitError::EmptyOrMalformedCueList)
    );
}

#[test]
fn cue_ids_are_taken_verbatim() {
    let r = parse_srt("7\n00:00:01,000 --> 00:00:02,500\nHello").unwrap();
    assert_eq!(r[0].id, 7);
}
