use mkv_subtitle_extractor::parse_subtitle_tracks;
use mkv_subtitle_extractor::parse::classify_line;
use mkv_subtitle_extractor::parse::LineClass;
use mkv_subtitle_extractor::track::ParseErrorKind;

#[test]
fn two_header_scenario() {
    let text = "Stream #0:2(eng): Subtitle: subrip (default)\n\
                Stream #0:3: Subtitle: hdmv_pgs_subtitle, 1920x1080\n";
    let tracks = parse_subtitle_tracks(text).unwrap();
    assert_eq!(tracks.len(), 2);
    assert_eq!(tracks[0].stream_index, 0);
    assert_eq!(tracks[0].lang.as_deref(), Some("eng"));
    assert_eq!(tracks[0].format, "subrip");
    assert_eq!(tracks[0].title, None);
    assert_eq!(tracks[1].stream_index, 1);
    assert_eq!(tracks[1].lang, None);
    assert_eq!(tracks[1].format, "hdmv_pgs_subtitle");
    assert_eq!(tracks[1].title, None);
}

#[test]
fn renumbering_is_contiguous_and_ordered() {
    let text = "Stream #0:5: Subtitle: subrip\n\
                Stream #0:2(jpn): Subtitle: ass (default)\n\
                Stream #0:9: Subtitle: pgssub\n";
    let tracks = parse_subtitle_tracks(text).unwrap();
    assert_eq!(tracks.len(), 3);
    for (i, t) in tracks.iter().enumerate() {
        assert_eq!(t.stream_index, i as u32);
    }
    assert_eq!(tracks[0].format, "subrip");
    assert_eq!(tracks[1].format, "ass");
    assert_eq!(tracks[1].lang.as_deref(), Some("jpn"));
    assert_eq!(tracks[2].format, "pgssub");
}

#[test]
fn lang_tag_present_and_absent() {
    let with = parse_subtitle_tracks("Stream #0:1(ger): Subtitle: ass\n").unwrap();
    assert_eq!(with[0].lang.as_deref(), Some("ger"));
    let without = parse_subtitle_tracks("Stream #0:1: Subtitle: ass\n").unwrap();
    assert_eq!(without[0].lang, None);
}

#[test]
fn title_attaches_to_preceding_header() {
    let text = "  Stream #0:2(eng): Subtitle: subrip (default)\n\
                  Metadata:\n\
                    title           : English subs\n\
                  Stream #0:3: Subtitle: ass\n";
    let tracks = parse_subtitle_tracks(text).unwrap();
    assert_eq!(tracks.len(), 2);
    assert_eq!(tracks[0].title.as_deref(), Some("English subs"));
    assert_eq!(tracks[1].title, None);
}

#[test]
fn title_attaches_to_last_track_at_end_of_input() {
    let text = "Stream #0:2: Subtitle: subrip\n    title : Commentary";
    let tracks = parse_subtitle_tracks(text).unwrap();
    assert_eq!(tracks.len(), 1);
    assert_eq!(tracks[0].title.as_deref(), Some("Commentary"));
}

#[test]
fn title_before_any_header_is_ignored() {
    let text = "    title : Orphan\nStream #0:2: Subtitle: subrip\n";
    let tracks = parse_subtitle_tracks(text).unwrap();
    assert_eq!(tracks.len(), 1);
    assert_eq!(tracks[0].title, None);
}

#[test]
fn later_title_line_wins() {
    let text = "Stream #0:2: Subtitle: subrip\n\
                    title : First\n\
                    title : Second\n";
    let tracks = parse_subtitle_tracks(text).unwrap();
    assert_eq!(tracks[0].title.as_deref(), Some("Second"));
}

#[test]
fn empty_title_text_is_not_recorded() {
    let text = "Stream #0:2: Subtitle: subrip\n    title :    \n";
    let tracks = parse_subtitle_tracks(text).unwrap();
    assert_eq!(tracks[0].title, None);
}

#[test]
fn title_line_without_colon_is_ignored() {
    let text = "Stream #0:2: Subtitle: subrip\n    title only words\n";
    let tracks = parse_subtitle_tracks(text).unwrap();
    assert_eq!(tracks[0].title, None);
}

#[test]
fn non_subtitle_stream_header_closes_the_block() {
    let text = "Stream #0:2: Subtitle: subrip\n\
                Stream #0:3: Audio: aac\n\
                    title : Belongs to the audio stream\n";
    let tracks = parse_subtitle_tracks(text).unwrap();
    assert_eq!(tracks.len(), 1);
    assert_eq!(tracks[0].title, None);
}

#[test]
fn consecutive_headers_yield_untitled_tracks() {
    let text = "Stream #0:1: Subtitle: subrip\nStream #0:2: Subtitle: ass\n";
    let tracks = parse_subtitle_tracks(text).unwrap();
    assert_eq!(tracks.len(), 2);
    assert_eq!(tracks[0].title, None);
    assert_eq!(tracks[1].title, None);
}

#[test]
fn empty_text_yields_no_tracks() {
    let tracks = parse_subtitle_tracks("").unwrap();
    assert!(tracks.is_empty());
}

#[test]
fn text_without_subtitle_streams_yields_no_tracks() {
    let text = "Input #0, matroska,webm, from 'movie.mkv':\n\
                Stream #0:0: Video: h264\n\
                Stream #0:1: Audio: aac\n";
    let tracks = parse_subtitle_tracks(text).unwrap();
    assert!(tracks.is_empty());
}

#[test]
fn windows_line_endings_are_accepted() {
    let text = "Stream #0:2(eng): Subtitle: subrip (default)\r\n\
                Stream #0:3: Subtitle: ass\r\n";
    let tracks = parse_subtitle_tracks(text).unwrap();
    assert_eq!(tracks.len(), 2);
    assert_eq!(tracks[0].format, "subrip");
    assert_eq!(tracks[1].format, "ass");
}

#[test]
fn missing_subtitle_colon_is_an_error() {
    let line = "Stream #0:1: Subtitle streams follow";
    let err = parse_subtitle_tracks(line).unwrap_err();
    assert_eq!(err.kind, ParseErrorKind::MissingSubtitleMarker);
    assert_eq!(err.line, line);
}

#[test]
fn unclosed_parenthesis_is_an_error() {
    let line = "Stream #0:2(eng: Subtitle: subrip";
    let err = parse_subtitle_tracks(line).unwrap_err();
    assert_eq!(err.kind, ParseErrorKind::UnclosedParenthesis);
    assert_eq!(err.line, line);
}

#[test]
fn missing_stream_colon_is_an_error() {
    let line = "Stream #5: Subtitle: subrip";
    let err = parse_subtitle_tracks(line).unwrap_err();
    assert_eq!(err.kind, ParseErrorKind::MissingStreamColon);
    assert_eq!(err.line, line);
}

#[test]
fn non_numeric_index_is_an_error() {
    let line = "Stream #0:x(eng): Subtitle: subrip";
    let err = parse_subtitle_tracks(line).unwrap_err();
    assert_eq!(err.kind, ParseErrorKind::InvalidStreamIndex);
}

#[test]
fn oversized_index_is_an_error() {
    let line = "Stream #0:4294967296: Subtitle: subrip";
    let err = parse_subtitle_tracks(line).unwrap_err();
    assert_eq!(err.kind, ParseErrorKind::InvalidStreamIndex);
}

#[test]
fn empty_format_token_is_an_error() {
    let line = "Stream #0:1: Subtitle:";
    let err = parse_subtitle_tracks(line).unwrap_err();
    assert_eq!(err.kind, ParseErrorKind::EmptyFormat);
}

#[test]
fn an_error_stops_the_whole_enumeration() {
    let text = "Stream #0:1: Subtitle: subrip\nStream #0:2(eng: Subtitle: ass\n";
    let err = parse_subtitle_tracks(text).unwrap_err();
    assert_eq!(err.kind, ParseErrorKind::UnclosedParenthesis);
}

#[test]
fn format_token_stops_at_delimiters() {
    let comma = parse_subtitle_tracks("Stream #0:3: Subtitle: hdmv_pgs_subtitle, 1920x1080").unwrap();
    assert_eq!(comma[0].format, "hdmv_pgs_subtitle");
    let paren = parse_subtitle_tracks("Stream #0:3: Subtitle: subrip(default)").unwrap();
    assert_eq!(paren[0].format, "subrip");
    let space = parse_subtitle_tracks("Stream #0:3: Subtitle: ass (default)").unwrap();
    assert_eq!(space[0].format, "ass");
}

#[test]
fn classifier_recognizes_line_kinds() {
    assert_eq!(
        classify_line("  Stream #0:2(eng): Subtitle: subrip"),
        LineClass::SubtitleHeader
    );
    assert_eq!(classify_line("  Stream #0:0: Video: h264"), LineClass::OtherStreamHeader);
    assert_eq!(classify_line("    title : English"), LineClass::TitleMetadata);
    assert_eq!(classify_line("  Duration: 01:00:00.00"), LineClass::Other);
}
