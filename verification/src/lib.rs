//! Compile-time locale resource loading and cross-locale schema unification.
//!
//! The crate parses per-locale translation values (literal text, `{{name}}`
//! interpolation placeholders, `<tag>...</tag>` component markup and plural
//! selectors), and reconciles a group of locales into one key-to-type schema,
//! reporting missing keys and conflicting plural taxonomies.

pub mod error;
pub mod laws;
pub mod locale;
pub mod parse;
pub mod value;
