//! A verified catalog of font-glyph metadata.
//!
//! One or more XML sources describing named glyphs (codepoint, category,
//! script, production name, alternative names, ...) are ingested into an
//! append-only record store with four lookup indices, and the record
//! sequence can be saved to and restored from a compact binary snapshot.

pub mod codec;
pub mod errors;
pub mod index;
pub mod pipeline;
pub mod record;
pub mod store;
pub mod text;
pub mod vocab;
