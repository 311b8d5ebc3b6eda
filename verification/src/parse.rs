//! Track parser: splits the diagnostic text into lines, classifies
//! each line, and builds one `SubtitleTrack` per recognized subtitle
//! stream header, with track-scoped title metadata and a final
//! renumbering pass.

use vstd::prelude::*;
use vstd::string::StrSliceExecFns;
use vstd::string::StringExecFns;
use crate::text::all_digits;
use crate::text::char_is_ws;
use crate::text::dec_value;
use crate::text::find_char;
use crate::text::find_char_from;
use crate::text::find_from;
use crate::text::find_sub;
use crate::text::find_sub_from;
use crate::text::is_ws;
use crate::text::lemma_find_from_props;
use crate::text::lemma_find_from_scan_none;
use crate::text::lemma_find_from_scan_some;
use crate::text::parse_u32;
use crate::text::rfind_char;
use crate::text::rfind_spec;
use crate::text::starts_with;
use crate::text::starts_with_spec;
use crate::text::trim;
use crate::text::trim_end_colons;
use crate::text::trim_end_colons_spec;
use crate::text::trim_spec;
use crate::text::trim_start;
use crate::text::trim_start_spec;
use crate::track::ParseError;
use crate::track::ParseErrorKind;
use crate::track::ParseErrorModel;
use crate::track::SubtitleTrack;
use crate::track::TrackModel;

verus! {

/// A carriage return directly before a line feed is not part of the line.
pub open spec fn strip_cr(s: Seq<char>) -> Seq<char> {
    if s.len() > 0 && s.last() == '\r' {
        s.drop_last()
    } else {
        s
    }
}

/// The lines of `text`: pieces between line feeds, each stripped of a
/// trailing carriage return; a final line feed ends the last line
/// rather than opening an empty one.
pub open spec fn lines_spec(text: Seq<char>) -> Seq<Seq<char>>
    decreases text.len(),
{
    if text.len() == 0 {
        Seq::empty()
    } else {
        match find_from(text, '\n', 0) {
            Some(k) => if 0 <= k < text.len() {
                seq![strip_cr(text.subrange(0, k))] + lines_spec(
                    text.subrange(k + 1, text.len() as int),
                )
            } else {
                // find_from never returns an out-of-range position
                seq![text]
            },
            None => seq![text],
        }
    }
}

/// The views of a sequence of owned strings.
pub open spec fn line_views(v: Seq<String>) -> Seq<Seq<char>> {
    v.map_values(|s: String| s@)
}

/// There are never more lines than characters.
proof fn lemma_lines_count_le(text: Seq<char>)
    ensures
        lines_spec(text).len() <= text.len(),
    decreases text.len(),
{
    if text.len() > 0 {
        lemma_find_from_props(text, '\n', 0);
        match find_from(text, '\n', 0) {
            Some(k) => {
                lemma_lines_count_le(text.subrange(k + 1, text.len() as int));
            },
            None => {},
        }
    }
}

/// Split `text` into its lines.
pub fn split_lines(text: &str) -> (r: Vec<String>)
    ensures
        line_views(r@) == lines_spec(text@),
{
    let n = text.unicode_len();
    let mut out: Vec<String> = Vec::new();
    let mut pos: usize = 0;
    proof {
        assert(line_views(out@) + lines_spec(text@.subrange(0, n as int)) =~= lines_spec(
            text@,
        )) by {
            assert(text@.subrange(0, n as int) =~= text@);
        }
    }
    while pos < n
        invariant
            0 <= pos <= n,
            n == text@.len(),
            line_views(out@) + lines_spec(text@.subrange(pos as int, n as int)) == lines_spec(
                text@,
            ),
        decreases n - pos,
    {
        let ghost suffix = text@.subrange(pos as int, n as int);
        match find_char_from(text, '\n', pos) {
            Some(k) => {
                proof {
                    lemma_find_from_props(text@, '\n', pos as int);
                    assert forall|j: int| 0 <= j < k - pos implies suffix[j] != '\n' by {
                        assert(suffix[j] == text@[pos + j]);
                    }
                    assert(suffix[k - pos] == text@[k as int]);
                    lemma_find_from_scan_some(suffix, '\n', 0, k - pos);
                }
                let piece: &str = if k > pos && text.get_char(k - 1) == '\r' {
                    text.substring_char(pos, k - 1)
                } else {
                    text.substring_char(pos, k)
                };
                proof {
                    assert(suffix.subrange(0, k - pos) =~= text@.subrange(pos as int, k as int));
                    assert(piece@ =~= strip_cr(suffix.subrange(0, k - pos)));
                }
                let owned = String::from_str(piece);
                out.push(owned);
                proof {
                    let rest = text@.subrange(k + 1, n as int);
                    assert(suffix.subrange(k - pos + 1, suffix.len() as int) =~= rest);
                    assert(lines_spec(suffix) == seq![strip_cr(suffix.subrange(0, k - pos))]
                        + lines_spec(rest));
                    assert(line_views(out@) =~= line_views(out@.drop_last()).push(piece@));
                    assert(line_views(out@) + lines_spec(rest) =~= line_views(out@.drop_last())
                        + lines_spec(suffix));
                }
                pos = k + 1;
            },
            None => {
                proof {
                    lemma_find_from_props(text@, '\n', pos as int);
                    assert forall|j: int| 0 <= j < suffix.len() implies suffix[j] != '\n' by {
                        assert(suffix[j] == text@[pos + j]);
                    }
                    lemma_find_from_scan_none(suffix, '\n', 0);
                }
                let piece = text.substring_char(pos, n);
                let owned = String::from_str(piece);
                out.push(owned);
                proof {
                    assert(lines_spec(suffix) == seq![suffix]);
                    assert(text@.subrange(n as int, n as int) =~= Seq::<char>::empty());
                    assert(lines_spec(text@.subrange(n as int, n as int)) =~= Seq::<
                        Seq<char>,
                    >::empty());
                    assert(line_views(out@) =~= line_views(out@.drop_last()).push(suffix));
                    assert(line_views(out@) + lines_spec(text@.subrange(n as int, n as int))
                        =~= line_views(out@.drop_last()) + lines_spec(suffix));
                }
                pos = n;
            },
        }
    }
    proof {
        assert(text@.subrange(n as int, n as int) =~= Seq::<char>::empty());
        assert(line_views(out@) + lines_spec(text@.subrange(n as int, n as int)) =~= line_views(
            out@,
        ));
    }
    out
}

/// How one line of diagnostic text bears on track discovery.
#[derive(Debug, Clone, Copy, PartialEq, Eq, Structural)]
pub enum LineClass {
    /// Starts a subtitle stream record.
    SubtitleHeader,
    /// Starts some other stream record; ends the block of the previous one.
    OtherStreamHeader,
    /// May carry a title for the stream block it stands in.
    TitleMetadata,
    /// Irrelevant to track discovery.
    Other,
}

/// The line, once its indentation is gone, opens a stream record.
pub open spec fn is_stream_header(line: Seq<char>) -> bool {
    starts_with_spec(trim_start_spec(line), "Stream #"@)
}

/// The line mentions the subtitle stream type anywhere.
pub open spec fn mentions_subtitle(line: Seq<char>) -> bool {
    find_sub_from(line, "Subtitle"@, 0) is Some
}

/// The line opens a subtitle stream record.
pub open spec fn is_subtitle_header(line: Seq<char>) -> bool {
    is_stream_header(line) && mentions_subtitle(line)
}

/// The line, once its indentation is gone, is a title metadata line.
pub open spec fn is_title_meta(line: Seq<char>) -> bool {
    starts_with_spec(trim_start_spec(line), "title"@)
}

pub open spec fn classify_spec(line: Seq<char>) -> LineClass {
    if is_subtitle_header(line) {
        LineClass::SubtitleHeader
    } else if is_stream_header(line) {
        LineClass::OtherStreamHeader
    } else if is_title_meta(line) {
        LineClass::TitleMetadata
    } else {
        LineClass::Other
    }
}

/// Classify one line of diagnostic text.
pub fn classify_line(line: &str) -> (r: LineClass)
    ensures
        r == classify_spec(line@),
{
    let lt = trim_start(line);
    if starts_with(lt, "Stream #") {
        if find_sub(line, "Subtitle").is_some() {
            LineClass::SubtitleHeader
        } else {
            LineClass::OtherStreamHeader
        }
    } else if starts_with(lt, "title") {
        LineClass::TitleMetadata
    } else {
        LineClass::Other
    }
}

/// A character that ends the format token.
pub open spec fn is_format_delim(c: char) -> bool {
    is_ws(c) || c == ',' || c == '('
}

/// Position of the first format-token delimiter at or after `i`, or
/// the length when there is none.
pub open spec fn token_end(s: Seq<char>, i: int) -> int
    decreases s.len() - i + 1,
{
    if i < 0 || i >= s.len() {
        s.len() as int
    } else if is_format_delim(s[i]) {
        i
    } else {
        token_end(s, i + 1)
    }
}

proof fn lemma_token_end_scan(s: Seq<char>, i: int, k: int)
    requires
        0 <= i <= k <= s.len(),
        forall|j: int| i <= j < k ==> !is_format_delim(s[j]),
        k == s.len() || is_format_delim(s[k]),
    ensures
        token_end(s, i) == k,
    decreases k - i,
{
    if i < k {
        lemma_token_end_scan(s, i + 1, k);
    }
}

/// The first whitespace/comma/paren-delimited token of `s`.
pub open spec fn first_token(s: Seq<char>) -> Seq<char> {
    s.subrange(0, token_end(s, 0))
}

/// The first whitespace/comma/paren-delimited token of `s`.
fn first_token_exec(s: &str) -> (r: &str)
    ensures
        r@ == first_token(s@),
{
    let n = s.unicode_len();
    let mut i: usize = 0;
    while i < n
        invariant
            0 <= i <= n,
            n == s@.len(),
            forall|j: int| 0 <= j < i ==> !is_format_delim(s@[j]),
        decreases n - i,
    {
        let c = s.get_char(i);
        if char_is_ws(c) || c == ',' || c == '(' {
            proof {
                lemma_token_end_scan(s@, 0, i as int);
            }
            return s.substring_char(0, i);
        }
        i = i + 1;
    }
    proof {
        lemma_token_end_scan(s@, 0, n as int);
    }
    s.substring_char(0, n)
}

/// The header line after the stream marker prefix, trimmed: the part
/// holding the numeric prefix, the optional language tag, and the
/// stream description.
pub open spec fn after_stream_of(line: Seq<char>) -> Seq<char> {
    let lt = trim_start_spec(line);
    trim_spec(lt.subrange("Stream #"@.len() as int, lt.len() as int))
}

/// The part of a header line before the subtitle marker, with the
/// trailing colons of the numeric prefix removed: the numeric prefix
/// together with the optional parenthesized language tag.
pub open spec fn stream_part_of(line: Seq<char>) -> Seq<char> {
    let after_stream = after_stream_of(line);
    match find_sub_from(after_stream, "Subtitle:"@, 0) {
        Some(p) => trim_spec(trim_end_colons_spec(trim_spec(after_stream.subrange(0, p)))),
        None => Seq::empty(),
    }
}

/// Split the part before the subtitle marker into the optional
/// parenthesized language tag and the numeric portion before it.
pub open spec fn split_lang(stream_part: Seq<char>) -> Result<
    (Option<Seq<char>>, Seq<char>),
    ParseErrorKind,
> {
    match find_from(stream_part, '(', 0) {
        Some(op) => {
            let inside = stream_part.subrange(op + 1, stream_part.len() as int);
            match find_from(inside, ')', 0) {
                Some(cp) => Ok(
                    (Some(inside.subrange(0, cp)), stream_part.subrange(0, op)),
                ),
                None => Err(ParseErrorKind::UnclosedParenthesis),
            }
        },
        None => Ok((None, stream_part)),
    }
}

/// Read the raw stream index: the decimal numeral after the last colon
/// of the numeric portion, once trailing colons and whitespace are gone.
pub open spec fn parse_index_from(numeric: Seq<char>) -> Result<nat, ParseErrorKind> {
    let cleaned = trim_spec(trim_end_colons_spec(numeric));
    match rfind_spec(cleaned, ':') {
        Some(ci) => {
            let int_str = cleaned.subrange(ci + 1, cleaned.len() as int);
            if int_str.len() > 0 && all_digits(int_str) && dec_value(int_str) <= u32::MAX {
                Ok(dec_value(int_str) as nat)
            } else {
                Err(ParseErrorKind::InvalidStreamIndex)
            }
        },
        None => Err(ParseErrorKind::MissingStreamColon),
    }
}

/// The header grammar: `<numeric prefix>[(<lang>)]: <subtitle marker>:
/// <format token> ...`, applied to a line that `is_subtitle_header`
/// accepts. A malformed header names what is wrong with it.
pub open spec fn parse_header_spec(line: Seq<char>) -> Result<TrackModel, ParseErrorKind> {
    let after_stream = after_stream_of(line);
    match find_sub_from(after_stream, "Subtitle:"@, 0) {
        Some(p) => {
            let after_subtitle = trim_spec(
                after_stream.subrange(p + "Subtitle:"@.len(), after_stream.len() as int),
            );
            let stream_part = stream_part_of(line);
            match split_lang(stream_part) {
                Ok((lang, numeric)) => match parse_index_from(numeric) {
                    Ok(idx) => {
                        let fmt = first_token(after_subtitle);
                        if fmt.len() == 0 {
                            Err(ParseErrorKind::EmptyFormat)
                        } else {
                            Ok(
                                TrackModel {
                                    stream_index: idx,
                                    lang,
                                    format: fmt,
                                    title: None,
                                },
                            )
                        }
                    },
                    Err(k) => Err(k),
                },
                Err(k) => Err(k),
            }
        },
        None => Err(ParseErrorKind::MissingSubtitleMarker),
    }
}

fn perr(kind: ParseErrorKind, line: &str) -> (e: ParseError)
    ensures
        e@.kind == kind,
        e@.line == line@,
{
    ParseError { kind, line: String::from_str(line) }
}

fn parse_index_part(numeric: &str) -> (r: Result<u32, ParseErrorKind>)
    ensures
        match r {
            Ok(v) => parse_index_from(numeric@) == Ok::<nat, ParseErrorKind>(v as nat),
            Err(k) => parse_index_from(numeric@) == Err::<nat, ParseErrorKind>(k),
        },
{
    let cleaned = trim(trim_end_colons(numeric));
    match rfind_char(cleaned, ':') {
        Some(ci) => {
            let cl = cleaned.unicode_len();
            let int_str = cleaned.substring_char(ci + 1, cl);
            match parse_u32(int_str) {
                Some(v) => Ok(v),
                None => Err(ParseErrorKind::InvalidStreamIndex),
            }
        },
        None => Err(ParseErrorKind::MissingStreamColon),
    }
}

/// Parse one subtitle stream header line into a track with the raw
/// index the probing tool reported and no title yet.
fn parse_header(line: &str) -> (r: Result<SubtitleTrack, ParseError>)
    requires
        is_subtitle_header(line@),
    ensures
        match r {
            Ok(t) => parse_header_spec(line@) == Ok::<TrackModel, ParseErrorKind>(t@),
            Err(e) => parse_header_spec(line@) == Err::<TrackModel, ParseErrorKind>(e@.kind)
                && e@.line == line@,
        },
{
    let line_trim = trim_start(line);
    let n = line_trim.unicode_len();
    let marker_len = "Stream #".unicode_len();
    let after_stream = trim(line_trim.substring_char(marker_len, n));
    match find_sub(after_stream, "Subtitle:") {
        None => Err(perr(ParseErrorKind::MissingSubtitleMarker, line)),
        Some(p) => {
            let m = after_stream.unicode_len();
            let sub_len = "Subtitle:".unicode_len();
            let left = trim(after_stream.substring_char(0, p));
            let after_subtitle = trim(after_stream.substring_char(p + sub_len, m));
            let stream_part = trim(trim_end_colons(left));
            let sp_len = stream_part.unicode_len();
            let (lang, numeric): (Option<String>, &str) = match find_char(stream_part, '(') {
                Some(op) => {
                    let inside = stream_part.substring_char(op + 1, sp_len);
                    match find_char(inside, ')') {
                        Some(cp) => {
                            let tag = String::from_str(inside.substring_char(0, cp));
                            (Some(tag), stream_part.substring_char(0, op))
                        },
                        None => {
                            return Err(perr(ParseErrorKind::UnclosedParenthesis, line));
                        },
                    }
                },
                None => (None, stream_part),
            };
            match parse_index_part(numeric) {
                Err(k) => Err(perr(k, line)),
                Ok(v) => {
                    let fmt = first_token_exec(after_subtitle);
                    if fmt.unicode_len() == 0 {
                        Err(perr(ParseErrorKind::EmptyFormat, line))
                    } else {
                        let track = SubtitleTrack {
                            stream_index: v,
                            lang,
                            format: String::from_str(fmt),
                            title: None,
                        };
                        Ok(track)
                    }
                },
            }
        },
    }
}

/// Parsing state of the forward scan: the tracks already emitted, and
/// the in-progress track slot.
pub struct ParseState {
    pub done: Seq<TrackModel>,
    pub current: Option<TrackModel>,
}

pub open spec fn initial_state() -> ParseState {
    ParseState { done: Seq::empty(), current: None }
}

/// The emitted tracks once the in-progress track, if any, is finalized.
pub open spec fn push_current(st: ParseState) -> Seq<TrackModel> {
    match st.current {
        Some(t) => st.done.push(t),
        None => st.done,
    }
}

/// The title a metadata line carries: the trimmed text after its first
/// colon, if that text is non-empty.
pub open spec fn title_text(line: Seq<char>) -> Option<Seq<char>> {
    match find_from(line, ':', 0) {
        Some(cp) => {
            let text = trim_spec(line.subrange(cp + 1, line.len() as int));
            if text.len() > 0 {
                Some(text)
            } else {
                None
            }
        },
        None => None,
    }
}

/// `t` with its title set from a metadata line; a line carrying no
/// title leaves the track as it is, a second title line wins over a
/// first.
pub open spec fn with_title(t: TrackModel, line: Seq<char>) -> TrackModel {
    match title_text(line) {
        Some(text) => TrackModel {
            stream_index: t.stream_index,
            lang: t.lang,
            format: t.format,
            title: Some(text),
        },
        None => t,
    }
}

/// One step of the scan: a subtitle header finalizes the in-progress
/// track and opens a new one; another stream header only finalizes it;
/// a title metadata line inside a stream block titles the in-progress
/// track; every other line is ignored.
pub open spec fn step_spec(st: ParseState, line: Seq<char>) -> Result<
    ParseState,
    ParseErrorModel,
> {
    if is_subtitle_header(line) {
        match parse_header_spec(line) {
            Ok(t) => Ok(ParseState { done: push_current(st), current: Some(t) }),
            Err(k) => Err(ParseErrorModel { kind: k, line }),
        }
    } else if is_stream_header(line) {
        Ok(ParseState { done: push_current(st), current: None })
    } else {
        match st.current {
            Some(cur) => if is_title_meta(line) {
                Ok(ParseState { done: st.done, current: Some(with_title(cur, line)) })
            } else {
                Ok(st)
            },
            None => Ok(st),
        }
    }
}

/// The scan after the first `i` lines.
pub open spec fn run_spec(lines: Seq<Seq<char>>, i: int) -> Result<ParseState, ParseErrorModel>
    decreases i,
{
    if i <= 0 {
        Ok(initial_state())
    } else {
        match run_spec(lines, i - 1) {
            Ok(st) => step_spec(st, lines[i - 1]),
            Err(e) => Err(e),
        }
    }
}

/// Renumbering: each track's `stream_index` becomes its 0-based
/// position, discarding the raw index the probing tool reported.
pub open spec fn renumber(ts: Seq<TrackModel>) -> Seq<TrackModel> {
    Seq::new(
        ts.len(),
        |i: int|
            TrackModel {
                stream_index: i as nat,
                lang: ts[i].lang,
                format: ts[i].format,
                title: ts[i].title,
            },
    )
}

/// The whole parse: scan every line, finalize the last in-progress
/// track, renumber into presentation order.
pub open spec fn parse_tracks_spec(lines: Seq<Seq<char>>) -> Result<
    Seq<TrackModel>,
    ParseErrorModel,
> {
    match run_spec(lines, lines.len() as int) {
        Ok(st) => Ok(renumber(push_current(st))),
        Err(e) => Err(e),
    }
}

/// The views of a sequence of owned tracks.
pub open spec fn track_views(ts: Seq<SubtitleTrack>) -> Seq<TrackModel> {
    ts.map_values(|t: SubtitleTrack| t@)
}

pub open spec fn current_view(c: Option<SubtitleTrack>) -> Option<TrackModel> {
    match c {
        Some(t) => Some(t@),
        None => None,
    }
}

/// A scan that has failed stays failed.
proof fn lemma_run_err_persists(lines: Seq<Seq<char>>, i: int, k: int)
    requires
        0 <= i <= k,
        run_spec(lines, i) is Err,
    ensures
        run_spec(lines, k) == run_spec(lines, i),
    decreases k - i,
{
    if k > i {
        lemma_run_err_persists(lines, i, k - 1);
    }
}

/// The scan emits at most one track per line read.
proof fn lemma_run_count(lines: Seq<Seq<char>>, i: int)
    requires
        0 <= i,
    ensures
        match run_spec(lines, i) {
            Ok(st) => push_current(st).len() <= i,
            Err(_) => true,
        },
    decreases i,
{
    if i > 0 {
        lemma_run_count(lines, i - 1);
    }
}

/// Parse the diagnostic text of the probing tool into the list of
/// subtitle tracks, in header order, renumbered into 0-based
/// presentation order. A malformed subtitle header stops the whole
/// enumeration and is reported with the offending line.
///
/// The text is bounded so that every presentation index fits a `u32`.
pub fn parse_subtitle_tracks(text: &str) -> (r: Result<Vec<SubtitleTrack>, ParseError>)
    requires
        text@.len() <= u32::MAX,
    ensures
        match r {
            Ok(ts) => parse_tracks_spec(lines_spec(text@)) == Ok::<_, ParseErrorModel>(
                track_views(ts@),
            ) && (forall|k: int|
                0 <= k < ts@.len() ==> (#[trigger] ts@[k])@.stream_index == k as nat && ts@[k]@.format.len()
                    > 0),
            Err(e) => parse_tracks_spec(lines_spec(text@)) == Err::<Seq<TrackModel>, _>(e@),
        },
{
    let lines = split_lines(text);
    let ghost gl = lines_spec(text@);
    let mut done: Vec<SubtitleTrack> = Vec::new();
    let mut current: Option<SubtitleTrack> = None;
    proof {
        assert(track_views(done@) =~= initial_state().done);
    }
    let mut i: usize = 0;
    while i < lines.len()
        invariant
            0 <= i <= lines@.len(),
            line_views(lines@) == gl,
            gl == lines_spec(text@),
            run_spec(gl, i as int) == Ok::<ParseState, ParseErrorModel>(
                ParseState { done: track_views(done@), current: current_view(current) },
            ),
        decreases lines@.len() - i,
    {
        let ghost st_old = ParseState { done: track_views(done@), current: current_view(current) };
        let line: &String = &lines[i];
        proof {
            assert(gl[i as int] == lines@[i as int]@);
        }
        match classify_line(line.as_str()) {
            LineClass::SubtitleHeader => {
                match parse_header(line.as_str()) {
                    Ok(t) => {
                        let prev = current;
                        match prev {
                            Some(c) => {
                                done.push(c);
                                proof {
                                    assert(track_views(done@) =~= push_current(st_old));
                                }
                            },
                            None => {},
                        }
                        current = Some(t);
                    },
                    Err(e) => {
                        proof {
                            assert(step_spec(st_old, gl[i as int]) == Err::<ParseState,
                                ParseErrorModel,
                            >(e@));
                            lemma_run_err_persists(gl, i + 1, gl.len() as int);
                        }
                        return Err(e);
                    },
                }
            },
            LineClass::OtherStreamHeader => {
                let prev = current;
                match prev {
                    Some(c) => {
                        done.push(c);
                        proof {
                            assert(track_views(done@) =~= push_current(st_old));
                        }
                    },
                    None => {},
                }
                current = None;
            },
            LineClass::TitleMetadata => {
                if current.is_some() {
                    match find_char(line.as_str(), ':') {
                        Some(cp) => {
                            let ln = line.as_str().unicode_len();
                            let text_part = trim(line.as_str().substring_char(cp + 1, ln));
                            if text_part.unicode_len() > 0 {
                                let label = String::from_str(text_part);
                                current = match current {
                                    Some(t) => Some(
                                        SubtitleTrack {
                                            stream_index: t.stream_index,
                                            lang: t.lang,
                                            format: t.format,
                                            title: Some(label),
                                        },
                                    ),
                                    None => None,
                                };
                            }
                        },
                        None => {},
                    }
                }
            },
            LineClass::Other => {},
        }
        i = i + 1;
    }
    let ghost st_final = ParseState { done: track_views(done@), current: current_view(current) };
    match current {
        Some(c) => {
            done.push(c);
            proof {
                assert(track_views(done@) =~= push_current(st_final));
            }
        },
        None => {},
    }
    proof {
        assert(track_views(done@) == push_current(st_final));
        lemma_run_count(gl, gl.len() as int);
        lemma_lines_count_le(text@);
    }
    let count = done.len();
    let mut out: Vec<SubtitleTrack> = Vec::new();
    let mut k: usize = 0;
    while k < count
        invariant
            0 <= k <= count,
            count == done@.len(),
            count <= u32::MAX,
            out@.len() == k,
            forall|j: int| 0 <= j < k ==> out@[j]@ == renumber(track_views(done@))[j],
        decreases count - k,
    {
        let t = &done[k];
        let lang2: Option<String> = match &t.lang {
            Some(l) => Some(l.clone()),
            None => None,
        };
        let title2: Option<String> = match &t.title {
            Some(x) => Some(x.clone()),
            None => None,
        };
        out.push(
            SubtitleTrack {
                stream_index: k as u32,
                lang: lang2,
                format: t.format.clone(),
                title: title2,
            },
        );
        k = k + 1;
    }
    proof {
        assert(track_views(out@) =~= renumber(track_views(done@)));
        lemma_format_nonempty(gl);
        assert forall|k: int|
            0 <= k < out@.len() implies (#[trigger] out@[k])@.stream_index == k as nat
            && out@[k]@.format.len() > 0 by {
            assert(track_views(out@)[k] == out@[k]@);
        }
    }
    Ok(out)
}

/// Number of subtitle header lines among the first `i` lines.
pub open spec fn count_subtitle_headers(lines: Seq<Seq<char>>, i: int) -> int
    decreases i,
{
    if i <= 0 {
        0
    } else {
        count_subtitle_headers(lines, i - 1) + if is_subtitle_header(lines[i - 1]) {
            1int
        } else {
            0int
        }
    }
}

proof fn lemma_run_well_formed(lines: Seq<Seq<char>>, i: int)
    requires
        0 <= i <= lines.len(),
        forall|k: int|
            0 <= k < lines.len() && is_subtitle_header(lines[k]) ==> (#[trigger] parse_header_spec(
                lines[k],
            )) is Ok,
    ensures
        match run_spec(lines, i) {
            Ok(st) => push_current(st).len() == count_subtitle_headers(lines, i),
            Err(_) => false,
        },
    decreases i,
{
    if i > 0 {
        lemma_run_well_formed(lines, i - 1);
    }
}

/// Law: diagnostic text whose subtitle header lines are all well
/// formed parses successfully, to exactly one track per subtitle
/// header line, in header order.
pub proof fn lemma_one_track_per_header(lines: Seq<Seq<char>>)
    requires
        forall|k: int|
            0 <= k < lines.len() && is_subtitle_header(lines[k]) ==> (#[trigger] parse_header_spec(
                lines[k],
            )) is Ok,
    ensures
        match parse_tracks_spec(lines) {
            Ok(ts) => ts.len() == count_subtitle_headers(lines, lines.len() as int),
            Err(_) => false,
        },
{
    lemma_run_well_formed(lines, lines.len() as int);
}

/// Law: whatever the text, the tracks of a successful parse carry
/// `stream_index` values exactly `0 .. N-1`, in order, whatever raw
/// indices the headers reported.
pub proof fn lemma_indices_contiguous(lines: Seq<Seq<char>>)
    ensures
        match parse_tracks_spec(lines) {
            Ok(ts) => forall|k: int|
                0 <= k < ts.len() ==> (#[trigger] ts[k]).stream_index == k as nat,
            Err(_) => true,
        },
{
}

/// Every track of `ts` carries a non-empty format token.
pub open spec fn all_formats_nonempty(ts: Seq<TrackModel>) -> bool {
    forall|k: int| 0 <= k < ts.len() ==> (#[trigger] ts[k]).format.len() > 0
}

proof fn lemma_run_formats_nonempty(lines: Seq<Seq<char>>, i: int)
    requires
        0 <= i,
    ensures
        match run_spec(lines, i) {
            Ok(st) => all_formats_nonempty(push_current(st)),
            Err(_) => true,
        },
    decreases i,
{
    if i > 0 {
        lemma_run_formats_nonempty(lines, i - 1);
        match run_spec(lines, i - 1) {
            Ok(st) => {
                let old_emitted = push_current(st);
                match run_spec(lines, i) {
                    Ok(st2) => {
                        let new_emitted = push_current(st2);
                        assert forall|k: int|
                            0 <= k < new_emitted.len() implies (#[trigger] new_emitted[k]).format.len()
                            > 0 by {
                            if k < old_emitted.len() {
                                assert(old_emitted[k].format.len() > 0);
                            }
                        }
                    },
                    Err(_) => {},
                }
            },
            Err(_) => {},
        }
    }
}

/// Law: every track of a successful parse has a non-empty format: a
/// header whose format token would be empty is a parse failure instead.
pub proof fn lemma_format_nonempty(lines: Seq<Seq<char>>)
    ensures
        match parse_tracks_spec(lines) {
            Ok(ts) => all_formats_nonempty(ts),
            Err(_) => true,
        },
{
    lemma_run_formats_nonempty(lines, lines.len() as int);
}

/// Law: in a well-formed header line, a parenthesized tag directly
/// after the numeric prefix yields `lang = Some(tag)`, the tag being
/// the text up to the first closing parenthesis; a header without a
/// parenthesis yields `lang = None`.
pub proof fn lemma_header_lang(line: Seq<char>)
    requires
        parse_header_spec(line) is Ok,
    ensures
        match parse_header_spec(line) {
            Ok(t) => {
                let stream_part = stream_part_of(line);
                match find_from(stream_part, '(', 0) {
                    Some(op) => {
                        let inside = stream_part.subrange(op + 1, stream_part.len() as int);
                        match find_from(inside, ')', 0) {
                            Some(cp) => t.lang == Some(inside.subrange(0, cp)),
                            None => false,
                        }
                    },
                    None => t.lang is None,
                }
            },
            Err(_) => true,
        },
{
}

/// Law: a title metadata line that opens no stream record attaches the
/// trimmed text after its first colon to the in-progress track — the
/// one whose header came most recently — overwriting an earlier title,
/// and leaves the already emitted tracks alone. With no in-progress
/// track, or no colon, or only empty text after it, the line changes
/// nothing.
pub proof fn lemma_title_attaches_to_current(st: ParseState, line: Seq<char>)
    requires
        !is_stream_header(line),
        is_title_meta(line),
    ensures
        match step_spec(st, line) {
            Ok(st2) => st2.done == st.done && (match st.current {
                Some(cur) => (match title_text(line) {
                    Some(text) => st2.current == Some(
                        TrackModel {
                            stream_index: cur.stream_index,
                            lang: cur.lang,
                            format: cur.format,
                            title: Some(text),
                        },
                    ),
                    None => st2.current == st.current,
                }),
                None => st2 == st,
            }),
            Err(_) => false,
        },
{
}

} // verus!
