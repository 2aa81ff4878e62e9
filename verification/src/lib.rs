//! Verified parsing and data-model core of a macOS Apple Music state observer:
//! image URL parameters, UTF-16 strings, a minimal XML reader, script balancing,
//! music library binary chunks, and service credential types.
pub mod text;
pub mod num;
pub mod unaligned_u16;
pub mod maybe_owned_string;
pub mod mzstatic;
pub mod osascript;
pub mod xml;
pub mod brainz;
pub mod musicdb;
pub mod plist;
pub mod lastfm;
pub mod osa_apple_music;
pub mod itunes_api;
