//! Localized string resources laid out as one `<code>.lproj` directory per
//! language: a parser for the `.strings` text format, the locale directory
//! model, and the fallback pipeline that resolves a phrase for a target
//! language.

pub mod encoding;
pub mod error;
pub mod locales;
pub mod proj;
pub mod resolve;
pub mod source;
pub mod strings;
pub mod table;
pub mod text;
