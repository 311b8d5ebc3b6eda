//! Extraction of subtitle tracks from container media files.
//!
//! The library turns the free-form diagnostic text printed by a media
//! probing tool into a typed list of subtitle tracks, resolves output
//! file names and extensions for chosen tracks, and drives the
//! extraction of a track as a step-by-step protocol whose filesystem
//! and subprocess effects are performed by the caller.

pub mod extract;
pub mod format;
pub mod naming;
pub mod parse;
pub mod text;
pub mod track;

pub use format::extension_for_format;
pub use naming::sanitize_to_windows_path_characters;
pub use parse::parse_subtitle_tracks;
pub use track::ParseError;
pub use track::SubtitleTrack;
