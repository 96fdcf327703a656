//! Codec for Garry's Mod addon archives (`.gma`).
//!
//! An archive is a header, a table of file entries, the files' bytes laid end
//! to end, and a trailing CRC-32. This crate builds such archives from files
//! held in memory, indexes existing ones and hands out their entries. It
//! also holds what gates and describes an archive's content: the whitelist
//! of paths, and the JSON text that carries an addon's description and tags.
//!
//! Paths, titles and descriptions are byte strings, as they are on disk.
//! Every function is verified against a mathematical model: `layout` says
//! what the bytes of an archive are and what the reader makes of a buffer,
//! `round_trip` and `metadata_round_trip` prove that reading undoes writing.

pub mod bytestr;
pub mod crc32;
pub mod wire;
pub mod wildcard;
pub mod paths;
pub mod json_text;
pub mod json;
pub mod addon_format;
pub mod addon_whitelist;
pub mod addon_json;
pub mod layout;
pub mod addon_reader;
pub mod create_gmad;
pub mod extract_gmad;
pub mod round_trip;
pub mod metadata_round_trip;
