use video_splitter::clock::ClockTime;
use video_splitter::errors::SplitError;
use video_splitter::parser::parse_path;
use video_splitter::parser::timestamp_parser::Timestamp;
use video_splitter::parser::{FileHolder, FileType};
use video_splitter::split_video::{build_request, split_file, split_one_file};
use video_splitter::util::escape_special_chars;

fn ct(hours: u32, minutes: u32, seconds: u32) -> ClockTime {
    ClockTime { hours, minutes, seconds, millis: None }
}

#[test]
fn video_path_classifies_as_video() {
    let h = parse_path("/a/b/movie.mp4");
    assert_eq!(h.file_type, FileType::Video);
    assert_eq!(h.full_path, "/a/b/movie.mp4");
    assert_eq!(h.name, "movie.mp4");
    assert_eq!(h.directory, "/a/b");
}

#[test]
fn subtitle_path_classifies_as_subtitle() {
    let h = parse_path("/a/b/subs.srt");
    assert_eq!(h.file_type, FileType::Subtitle);
    assert_eq!(h.name, "subs.srt");
}

#[test]
fn other_path_classifies_as_other() {
    let h = parse_path("/a/b/notes.txt");
    assert_eq!(h.file_type, FileType::Other);
}

#[test]
fn all_known_extensions_classify() {
    assert_eq!(parse_path("x.mp4").file_type, FileType::Video);
    assert_eq!(parse_path("x.avi").file_type, FileType::Video);
    assert_eq!(parse_path("x.mkv").file_type, FileType::Video);
    assert_eq!(parse_path("x.srt").file_type, FileType::Subtitle);
    assert_eq!(parse_path("x.ass").file_type, FileType::Subtitle);
    assert_eq!(parse_path("x.vtt").file_type, FileType::Subtitle);
}

#[test]
fn path_without_directory_or_extension() {
    let h = parse_path("movie");
    assert_eq!(h.name, "movie");
    assert_eq!(h.directory, "");
    assert_eq!(h.file_type, FileType::Other);
}

#[test]
fn hidden_file_has_no_extension() {
    let h = parse_path("/a/.mp4");
    assert_eq!(h.name, ".mp4");
    assert_eq!(h.file_type, FileType::Other);
}

#[test]
fn escape_leaves_plain_text_unchanged_twice() {
    let once = escape_special_chars("plain_text.42");
    assert_eq!(once, "plain_text.42");
    assert_eq!(escape_special_chars(&once), "plain_text.42");
}

#[test]
fn escape_prefixes_each_special_character() {
    assert_eq!(escape_special_chars("a$b"), "a\\$b");
    assert_eq!(escape_special_chars("a`b"), "a\\`b");
    assert_eq!(escape_special_chars("a\"b"), "a\\\"b");
    assert_eq!(escape_special_chars("a\\b"), "a\\\\b");
    assert_eq!(escape_special_chars("a b"), "a\\ b");
}

#[test]
fn escape_keeps_multi_byte_text() {
    assert_eq!(escape_special_chars("你好 世界"), "你好\\ 世界");
}

#[test]
fn build_request_lays_out_the_output_path() {
    let holder = parse_path("/a/b/movie.mp4");
    let stamp = Timestamp {
        index: 1,
        start: ct(0, 0, 0),
        end: Some(ct(0, 1, 30)),
        title: "Intro".to_string(),
    };
    let r = build_request(&holder, &stamp);
    assert_eq!(r.source_path, "/a/b/movie.mp4");
    assert_eq!(r.output_dir, "/a/b/movie_mp4");
    assert_eq!(r.output_path, "/a/b/movie_mp4/1_00-00-00_Intro.mp4");
    assert_eq!(r.start_text, "00:00:00");
    assert_eq!(r.duration_seconds, Some(90));
}

#[test]
fn build_request_escapes_the_label() {
    let holder = parse_path("/a/b/movie.mp4");
    let stamp = Timestamp {
        index: 12,
        start: ct(1, 2, 3),
        end: None,
        title: "My $ Chapter".to_string(),
    };
    let r = build_request(&holder, &stamp);
    assert_eq!(r.output_path, "/a/b/movie_mp4/12_01-02-03_My\\ \\$\\ Chapter.mp4");
    assert_eq!(r.start_text, "01:02:03");
    assert_eq!(r.duration_seconds, None);
}

#[test]
fn build_request_allows_inverted_intervals() {
    let holder = parse_path("/a/b/movie.mp4");
    let stamp = Timestamp {
        index: 1,
        start: ct(0, 2, 0),
        end: Some(ct(0, 1, 0)),
        title: "Backwards".to_string(),
    };
    let r = build_request(&holder, &stamp);
    assert_eq!(r.duration_seconds, Some(-60));
}

#[test]
fn split_one_file_skips_non_video() {
    let holder = parse_path("/a/b/notes.txt");
    let stamps = vec![Timestamp {
        index: 1,
        start: ct(0, 0, 0),
        end: None,
        title: "Intro".to_string(),
    }];
    let r = split_one_file(&holder, &stamps);
    assert!(r.is_empty());
}

#[test]
fn split_file_builds_the_cross_product_in_order() {
    let files = vec![
        "/a/b/movie.mp4".to_string(),
        "/a/b/subs.srt".to_string(),
        "/a/b/notes.txt".to_string(),
        "/a/b/other.mkv".to_string(),
    ];
    let reqs = split_file(files, "00:00:00 Intro\n00:01:30 Outro".to_string()).unwrap();
    assert_eq!(reqs.len(), 4);
    assert_eq!(reqs[0].source_path, "/a/b/movie.mp4");
    assert_eq!(reqs[0].output_path, "/a/b/movie_mp4/1_00-00-00_Intro.mp4");
    assert_eq!(reqs[0].duration_seconds, Some(90));
    assert_eq!(reqs[1].source_path, "/a/b/movie.mp4");
    assert_eq!(reqs[1].output_path, "/a/b/movie_mp4/2_00-01-30_Outro.mp4");
    assert_eq!(reqs[1].duration_seconds, None);
    assert_eq!(reqs[2].source_path, "/a/b/other.mkv");
    assert_eq!(reqs[2].output_path, "/a/b/other_mkv/1_00-00-00_Intro.mp4");
    assert_eq!(reqs[3].source_path, "/a/b/other.mkv");
    assert_eq!(reqs[3].output_path, "/a/b/other_mkv/2_00-01-30_Outro.mp4");
}

#[test]
fn split_file_fails_before_any_request_on_bad_markers() {
    let files = vec!["/a/b/movie.mp4".to_string()];
    assert_eq!(
        split_file(files, "  ".to_string()),
        Err(SplitError::EmptyOrMalformedMarkerList)
    );
}

#[test]
fn split_file_with_only_non_video_files_builds_nothing() {
    let files = vec!["/a/b/notes.txt".to_string(), "/a/b/subs.srt".to_string()];
    let reqs = split_file(files, "00:00:00 Intro".to_string()).unwrap();
    assert!(reqs.is_empty());
}

#[test]
fn file_holder_fields_survive_request_building() {
    let holder = FileHolder {
        full_path: "/x/clip.avi".to_string(),
        name: "clip.avi".to_string(),
        directory: "/x".to_string(),
        file_type: FileType::Video,
    };
    let stamp = Timestamp {
        index: 3,
        start: ct(10, 0, 5),
        end: None,
        title: "tail".to_string(),
    };
    let r = build_request(&holder, &stamp);
    assert_eq!(r.output_dir, "/x/clip_avi");
    assert_eq!(r.output_path, "/x/clip_avi/3_10-00-05_tail.mp4");
    assert_eq!(r.start, ct(10, 0, 5));
}
