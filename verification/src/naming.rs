//! Filename builder: decimal rendering, filename sanitization, and the
//! output, temporary and stream-selector names for an extraction.

use vstd::prelude::*;
use vstd::string::StrSliceExecFns;
use vstd::string::StringExecFns;
use crate::track::SubtitleTrack;
use crate::track::TrackModel;

verus! {

/// Relies on `String::push` of std: appends the given character to the
/// end of the string.
pub assume_specification[ String::push ](s: &mut String, c: char)
    ensures
        final(s)@ == old(s)@.push(c),
;

/// The decimal digit characters.
pub open spec fn digit_char(d: int) -> char {
    if d == 0 {
        '0'
    } else if d == 1 {
        '1'
    } else if d == 2 {
        '2'
    } else if d == 3 {
        '3'
    } else if d == 4 {
        '4'
    } else if d == 5 {
        '5'
    } else if d == 6 {
        '6'
    } else if d == 7 {
        '7'
    } else if d == 8 {
        '8'
    } else {
        '9'
    }
}

/// The decimal numeral of `n`, without leading zeros (a single zero
/// for zero itself).
pub open spec fn decimal(n: nat) -> Seq<char>
    decreases n,
{
    if n < 10 {
        seq![digit_char(n as int)]
    } else {
        decimal(n / 10) + seq![digit_char((n % 10) as int)]
    }
}

fn digit_to_char(d: u32) -> (c: char)
    requires
        d < 10,
    ensures
        c == digit_char(d as int),
{
    match d {
        0 => '0',
        1 => '1',
        2 => '2',
        3 => '3',
        4 => '4',
        5 => '5',
        6 => '6',
        7 => '7',
        8 => '8',
        _ => '9',
    }
}

/// Appends the decimal numeral of `n` to `s`.
pub fn push_decimal(s: &mut String, n: u32)
    ensures
        final(s)@ == old(s)@ + decimal(n as nat),
    decreases n,
{
    if n < 10 {
        s.push(digit_to_char(n));
        proof {
            assert(s@ =~= old(s)@ + decimal(n as nat));
        }
    } else {
        push_decimal(s, n / 10);
        s.push(digit_to_char(n % 10));
        proof {
            assert(s@ =~= old(s)@ + decimal(n as nat));
        }
    }
}

/// The decimal numeral of `n` as a string.
pub fn decimal_string(n: u32) -> (r: String)
    ensures
        r@ == decimal(n as nat),
{
    let mut s = String::new();
    push_decimal(&mut s, n);
    proof {
        assert(s@ =~= decimal(n as nat));
    }
    s
}

/// Characters that a portable filename must not contain.
pub open spec fn is_forbidden(c: char) -> bool {
    c == '/' || c == '\\' || c == ':' || c == '*' || c == '"' || c == '<' || c == '>' || c == '|'
}

/// A forbidden character becomes an underscore; all others stay.
pub open spec fn sanitize_char(c: char) -> char {
    if is_forbidden(c) {
        '_'
    } else {
        c
    }
}

/// Character-for-character sanitization: positions and length are kept.
pub open spec fn sanitize_spec(s: Seq<char>) -> Seq<char> {
    Seq::new(s.len(), |i: int| sanitize_char(s[i]))
}

/// Sanitizing is idempotent: a second pass changes nothing, because an
/// underscore is itself never forbidden.
pub proof fn lemma_sanitize_idempotent(s: Seq<char>)
    ensures
        sanitize_spec(sanitize_spec(s)) == sanitize_spec(s),
{
    assert(sanitize_spec(sanitize_spec(s)) =~= sanitize_spec(s));
}

/// Replace invalid Windows path characters with underscores,
/// one underscore per character: the length is preserved.
pub fn sanitize_to_windows_path_characters(segment: &str) -> (r: String)
    ensures
        r@ == sanitize_spec(segment@),
        r@.len() == segment@.len(),
{
    let n = segment.unicode_len();
    let mut out = String::new();
    let mut i: usize = 0;
    while i < n
        invariant
            0 <= i <= n,
            n == segment@.len(),
            out@.len() == i,
            forall|j: int| 0 <= j < i ==> out@[j] == sanitize_char(segment@[j]),
        decreases n - i,
    {
        let c = segment.get_char(i);
        if c == '/' || c == '\\' || c == ':' || c == '*' || c == '"' || c == '<' || c == '>'
            || c == '|' {
            out.push('_');
        } else {
            out.push(c);
        }
        i = i + 1;
    }
    proof {
        assert(out@ =~= sanitize_spec(segment@));
    }
    out
}

/// The optional language component of an output filename.
pub open spec fn lang_component(lang: Option<Seq<char>>) -> Seq<char> {
    match lang {
        Some(l) => seq!['.'] + l,
        None => Seq::<char>::empty(),
    }
}

/// The optional title component of an output filename; omitted when
/// the sanitized title is empty.
pub open spec fn title_component(title: Option<Seq<char>>) -> Seq<char> {
    match title {
        Some(t) => if sanitize_spec(t).len() > 0 {
            seq!['.'] + sanitize_spec(t)
        } else {
            Seq::<char>::empty()
        },
        None => Seq::<char>::empty(),
    }
}

/// The final output filename:
/// `<stem>.<index>[.<lang>][.<sanitized-title>].<extension>`, the
/// bracketed components omitted together with their dot when absent.
pub open spec fn output_name_spec(stem: Seq<char>, t: TrackModel, ext: Seq<char>) -> Seq<char> {
    stem + seq!['.'] + decimal(t.stream_index) + lang_component(t.lang) + title_component(t.title)
        + seq!['.'] + ext
}

/// Build the final output filename for `track`, extracted from a
/// source whose file stem is `stem`, with the resolved extension `ext`.
pub fn output_file_name(stem: &str, track: &SubtitleTrack, ext: &str) -> (r: String)
    ensures
        r@ == output_name_spec(stem@, track@, ext@),
{
    let mut name = String::from_str(stem);
    name.push('.');
    push_decimal(&mut name, track.stream_index);
    match &track.lang {
        Some(l) => {
            name.push('.');
            name.append(l.as_str());
        },
        None => {},
    }
    match &track.title {
        Some(t) => {
            let sanitized = sanitize_to_windows_path_characters(t.as_str());
            if sanitized.unicode_len() > 0 {
                name.push('.');
                name.append(sanitized.as_str());
            }
        },
        None => {},
    }
    name.push('.');
    name.append(ext);
    proof {
        assert(name@ =~= output_name_spec(stem@, track@, ext@));
    }
    name
}

/// The shared temporary filename: a fixed base name with the resolved
/// extension. It never varies per track, so back-to-back extractions
/// must serialize on it.
pub open spec fn temp_name_spec(ext: Seq<char>) -> Seq<char> {
    "output."@ + ext
}

/// The temporary working filename for an extraction with extension `ext`.
pub fn temp_file_name(ext: &str) -> (r: String)
    ensures
        r@ == temp_name_spec(ext@),
{
    let mut name = String::from_str("output.");
    name.append(ext);
    name
}

/// The stream selector handed to the external tool: the track's
/// presentation index within the subtitle-stream class of container 0.
pub open spec fn selector_spec(index: nat) -> Seq<char> {
    "0:s:"@ + decimal(index)
}

/// Build the subtitle-stream selector for presentation index `index`.
pub fn selector_for_index(index: u32) -> (r: String)
    ensures
        r@ == selector_spec(index as nat),
{
    let mut s = String::from_str("0:s:");
    push_decimal(&mut s, index);
    s
}

/// The extension of a plain file name: the text after the last dot,
/// absent when there is no dot or when the only dot is the leading one
/// of a hidden file.
pub open spec fn extension_of(name: Seq<char>) -> Option<Seq<char>> {
    match crate::text::rfind_spec(name, '.') {
        Some(k) => if k == 0 {
            None
        } else {
            Some(name.subrange(k + 1, name.len() as int))
        },
        None => None,
    }
}

/// Whether `ext` spells the matroska extension, ignoring ASCII case.
pub open spec fn matches_mkv(ext: Seq<char>) -> bool {
    ext.len() == 3 && (ext[0] == 'm' || ext[0] == 'M') && (ext[1] == 'k' || ext[1] == 'K') && (
    ext[2] == 'v' || ext[2] == 'V')
}

/// Whether `name` is a matroska file name, by extension, ignoring case.
pub open spec fn is_mkv_name_spec(name: Seq<char>) -> bool {
    match extension_of(name) {
        Some(e) => matches_mkv(e),
        None => false,
    }
}

/// Whether a plain file name names a matroska file.
pub fn is_mkv_file_name(name: &str) -> (r: bool)
    ensures
        r == is_mkv_name_spec(name@),
{
    let n = name.unicode_len();
    match crate::text::rfind_char(name, '.') {
        None => false,
        Some(k) => {
            if k == 0 {
                return false;
            }
            if n - k - 1 != 3 {
                return false;
            }
            let c0 = name.get_char(k + 1);
            let c1 = name.get_char(k + 2);
            let c2 = name.get_char(k + 3);
            proof {
                let e = name@.subrange(k + 1, n as int);
                assert(e[0] == name@[k + 1]);
                assert(e[1] == name@[k + 2]);
                assert(e[2] == name@[k + 3]);
            }
            (c0 == 'm' || c0 == 'M') && (c1 == 'k' || c1 == 'K') && (c2 == 'v' || c2 == 'V')
        },
    }
}

} // verus!
