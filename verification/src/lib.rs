//! Converts Android string resources (`values*/strings.xml`) into ARB
//! translation bundles.
//!
//! The pipeline has three verified stages: parsing the value mini-language
//! (escapes and `%s` placeholders), extracting entries from the XML event
//! stream, and emitting the per-locale ARB JSON content.

pub mod arb;
pub mod config;
pub mod json;
pub mod strutil;
pub mod value;
pub mod xml;
