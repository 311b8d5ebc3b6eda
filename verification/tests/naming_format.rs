use mkv_subtitle_extractor::extension_for_format;
use mkv_subtitle_extractor::sanitize_to_windows_path_characters;
use mkv_subtitle_extractor::format::container_for_format;
use mkv_subtitle_extractor::naming::decimal_string;
use mkv_subtitle_extractor::naming::is_mkv_file_name;
use mkv_subtitle_extractor::naming::output_file_name;
use mkv_subtitle_extractor::naming::selector_for_index;
use mkv_subtitle_extractor::naming::temp_file_name;
use mkv_subtitle_extractor::SubtitleTrack;

fn track(index: u32, lang: Option<&str>, format: &str, title: Option<&str>) -> SubtitleTrack {
    SubtitleTrack {
        stream_index: index,
        lang: lang.map(|s| s.to_string()),
        format: format.to_string(),
        title: title.map(|s| s.to_string()),
    }
}

#[test]
fn known_formats_map_to_fixed_extensions() {
    assert_eq!(extension_for_format("subrip"), "srt");
    assert_eq!(extension_for_format("ass"), "ass");
    assert_eq!(extension_for_format("hdmv_pgs_subtitle"), "sup");
    assert_eq!(extension_for_format("pgssub"), "sup");
}

#[test]
fn unknown_formats_fall_back_to_generic_extension() {
    assert_eq!(extension_for_format("webvtt"), "sub");
    assert_eq!(extension_for_format(""), "sub");
    assert_eq!(extension_for_format("SUBRIP"), "sub");
    assert!(!extension_for_format("anything").is_empty());
}

#[test]
fn container_directive_only_for_known_formats() {
    assert_eq!(container_for_format("subrip"), Some("srt"));
    assert_eq!(container_for_format("ass"), Some("ass"));
    assert_eq!(container_for_format("hdmv_pgs_subtitle"), Some("sup"));
    assert_eq!(container_for_format("pgssub"), Some("sup"));
    assert_eq!(container_for_format("webvtt"), None);
}

#[test]
fn sanitization_replaces_each_forbidden_character() {
    assert_eq!(sanitize_to_windows_path_characters("/\\:*\"<>|"), "________");
    assert_eq!(sanitize_to_windows_path_characters("a/b:c"), "a_b_c");
    assert_eq!(sanitize_to_windows_path_characters("plain name"), "plain name");
    assert_eq!(sanitize_to_windows_path_characters(""), "");
}

#[test]
fn sanitization_preserves_length_and_is_idempotent() {
    let inputs = ["", "abc", "a/b\\c:d*e\"f<g>h|i", "___", "x y z"];
    for s in inputs {
        let once = sanitize_to_windows_path_characters(s);
        assert_eq!(once.chars().count(), s.chars().count());
        let twice = sanitize_to_windows_path_characters(&once);
        assert_eq!(twice, once);
    }
}

#[test]
fn output_name_with_lang_and_no_title() {
    let t = track(0, Some("eng"), "subrip", None);
    assert_eq!(output_file_name("movie", &t, "srt"), "movie.0.eng.srt");
}

#[test]
fn output_name_without_lang_or_title() {
    let t = track(3, None, "hdmv_pgs_subtitle", None);
    assert_eq!(output_file_name("Some Film (2020)", &t, "sup"), "Some Film (2020).3.sup");
}

#[test]
fn output_name_with_sanitized_title() {
    let t = track(1, Some("jpn"), "ass", Some("Signs / Songs"));
    assert_eq!(output_file_name("show", &t, "ass"), "show.1.jpn.Signs _ Songs.ass");
}

#[test]
fn output_name_omits_title_that_sanitizes_to_empty() {
    let t = track(2, None, "subrip", Some(""));
    assert_eq!(output_file_name("movie", &t, "srt"), "movie.2.srt");
}

#[test]
fn temp_name_is_fixed_per_extension() {
    assert_eq!(temp_file_name("srt"), "output.srt");
    assert_eq!(temp_file_name("sup"), "output.sup");
}

#[test]
fn selector_uses_presentation_index() {
    assert_eq!(selector_for_index(0), "0:s:0");
    assert_eq!(selector_for_index(12), "0:s:12");
}

#[test]
fn decimal_rendering() {
    assert_eq!(decimal_string(0), "0");
    assert_eq!(decimal_string(7), "7");
    assert_eq!(decimal_string(10), "10");
    assert_eq!(decimal_string(305), "305");
    assert_eq!(decimal_string(u32::MAX), "4294967295");
}

#[test]
fn mkv_file_names_match_by_extension_ignoring_case() {
    assert!(is_mkv_file_name("a.mkv"));
    assert!(is_mkv_file_name("a.MKV"));
    assert!(is_mkv_file_name("a.mKv"));
    assert!(is_mkv_file_name("archive.tar.mkv"));
    assert!(!is_mkv_file_name("a.mp4"));
    assert!(!is_mkv_file_name("mkv"));
    assert!(!is_mkv_file_name(".mkv"));
    assert!(!is_mkv_file_name("a."));
    assert!(!is_mkv_file_name("a.mkvx"));
}

#[test]
fn describe_labels_a_track() {
    let with_all = track(2, Some("eng"), "subrip", Some("English subs"));
    assert_eq!(with_all.describe(), "Stream #0:2 (eng) \"subrip\" \"English subs\"");
    let bare = track(0, None, "ass", None);
    assert_eq!(bare.describe(), "Stream #0:0 \"ass\"");
}
