//! The subtitle track record produced by the parser, its mathematical
//! model, and the error reported for malformed diagnostic text.

use vstd::prelude::*;
use vstd::string::StringExecFns;

verus! {

/// Mathematical model of a subtitle track; the view of [`SubtitleTrack`].
pub struct TrackModel {
    pub stream_index: nat,
    pub lang: Option<Seq<char>>,
    pub format: Seq<char>,
    pub title: Option<Seq<char>>,
}

/// A struct describing each found subtitle track.
#[derive(Debug, Clone)]
pub struct SubtitleTrack {
    /// Position of this track among the subtitle tracks, 0-based,
    /// assigned by the renumbering pass after all lines are parsed.
    pub stream_index: u32,
    /// Short language code taken from the parenthesized tag of the
    /// header line, if one was present.
    pub lang: Option<String>,
    /// The codec/format token of the header line, never empty.
    pub format: String,
    /// Free-text label from a later metadata line of the same stream
    /// block, if one supplied a non-empty title.
    pub title: Option<String>,
}

impl View for SubtitleTrack {
    type V = TrackModel;

    open spec fn view(&self) -> TrackModel {
        TrackModel {
            stream_index: self.stream_index as nat,
            lang: match self.lang {
                Some(l) => Some(l@),
                None => None,
            },
            format: self.format@,
            title: match self.title {
                Some(t) => Some(t@),
                None => None,
            },
        }
    }
}

/// The label `describe` renders: the stream index, the language tag
/// in parentheses when present, the format in quotes, and the title in
/// quotes when present.
pub open spec fn describe_spec(t: TrackModel) -> Seq<char> {
    "Stream #0:"@ + crate::naming::decimal(t.stream_index) + seq![' '] + (match t.lang {
        Some(l) => seq!['('] + l + seq![')', ' '],
        None => Seq::<char>::empty(),
    }) + seq!['"'] + t.format + seq!['"'] + (match t.title {
        Some(x) => seq![' ', '"'] + x + seq!['"'],
        None => Seq::<char>::empty(),
    })
}

impl SubtitleTrack {
    /// A human-readable label for pickers and logs.
    pub fn describe(&self) -> (r: String)
        ensures
            r@ == describe_spec(self@),
    {
        let mut s = String::from_str("Stream #0:");
        crate::naming::push_decimal(&mut s, self.stream_index);
        s.push(' ');
        match &self.lang {
            Some(l) => {
                s.push('(');
                s.append(l.as_str());
                s.push(')');
                s.push(' ');
            },
            None => {},
        }
        s.push('"');
        s.append(self.format.as_str());
        s.push('"');
        match &self.title {
            Some(x) => {
                s.push(' ');
                s.push('"');
                s.append(x.as_str());
                s.push('"');
            },
            None => {},
        }
        proof {
            assert(s@ =~= describe_spec(self@));
        }
        s
    }
}

/// The ways a stream header line can be malformed.
#[derive(Debug, Clone, Copy, PartialEq, Eq, Structural)]
pub enum ParseErrorKind {
    /// The line mentions the subtitle marker but not followed by a colon.
    MissingSubtitleMarker,
    /// A language tag parenthesis is opened and never closed.
    UnclosedParenthesis,
    /// The numeric stream prefix has no colon separator.
    MissingStreamColon,
    /// The text after the last colon of the prefix is not a `u32` numeral.
    InvalidStreamIndex,
    /// The format token after the subtitle marker is empty.
    EmptyFormat,
}

/// Model of a [`ParseError`]: what was wrong, and on which line.
pub struct ParseErrorModel {
    pub kind: ParseErrorKind,
    pub line: Seq<char>,
}

/// A malformed stream header line; enumeration of the whole file stops
/// and the offending line is kept verbatim for diagnostics.
#[derive(Debug, Clone)]
pub struct ParseError {
    pub kind: ParseErrorKind,
    pub line: String,
}

impl View for ParseError {
    type V = ParseErrorModel;

    open spec fn view(&self) -> ParseErrorModel {
        ParseErrorModel { kind: self.kind, line: self.line@ }
    }
}

} // verus!
