//! Format resolver: maps a subtitle codec/format token to an output
//! file extension and to the container directive handed to the
//! external tool.

use vstd::prelude::*;
use crate::text::str_eq;

verus! {

/// The extension table: text subtitle formats keep their conventional
/// text extensions, the image-based format gets the image-subtitle
/// extension, and every other token falls back to a generic extension.
pub open spec fn extension_spec(fmt: Seq<char>) -> Seq<char> {
    if fmt == "subrip"@ {
        "srt"@
    } else if fmt == "ass"@ {
        "ass"@
    } else if fmt == "hdmv_pgs_subtitle"@ || fmt == "pgssub"@ {
        "sup"@
    } else {
        "sub"@
    }
}

/// Whether `fmt` is one of the known format tokens.
pub open spec fn is_known_format(fmt: Seq<char>) -> bool {
    fmt == "subrip"@ || fmt == "ass"@ || fmt == "hdmv_pgs_subtitle"@ || fmt == "pgssub"@
}

/// Detect the subtitle format -> extension.
///
/// Total: every token gets a non-empty extension; unknown tokens get
/// the fallback.
pub fn extension_for_format(fmt: &str) -> (r: &str)
    ensures
        r@ == extension_spec(fmt@),
        r@.len() > 0,
{
    proof {
        reveal_strlit("srt");
        reveal_strlit("ass");
        reveal_strlit("sup");
        reveal_strlit("sub");
    }
    if str_eq(fmt, "subrip") {
        "srt"
    } else if str_eq(fmt, "ass") {
        "ass"
    } else if str_eq(fmt, "hdmv_pgs_subtitle") || str_eq(fmt, "pgssub") {
        "sup"
    } else {
        "sub"
    }
}

/// The container directive passed to the external tool: for a known
/// format it names the same container as the extension; for an unknown
/// format no directive is passed.
pub open spec fn container_spec(fmt: Seq<char>) -> Option<Seq<char>> {
    if is_known_format(fmt) {
        Some(extension_spec(fmt))
    } else {
        None
    }
}

/// Container directive for the extraction command, if the format is known.
pub fn container_for_format(fmt: &str) -> (r: Option<&str>)
    ensures
        match r {
            Some(c) => container_spec(fmt@) == Some(c@),
            None => container_spec(fmt@) is None,
        },
{
    if str_eq(fmt, "subrip") {
        Some("srt")
    } else if str_eq(fmt, "ass") {
        Some("ass")
    } else if str_eq(fmt, "hdmv_pgs_subtitle") || str_eq(fmt, "pgssub") {
        Some("sup")
    } else {
        None
    }
}

} // verus!
