//! The error kinds of the loader and unifier.  Every failure is terminal:
//! the whole compilation run stops at the first error, with enough context
//! to locate the offending resource.

use vstd::prelude::*;

use crate::parse::ParseErrorKind;

verus! {

/// A failure of loading, parsing or unification.
#[derive(Debug, PartialEq, Eq)]
pub enum Error {
    /// A configured resource file is absent or unopenable.
    LocaleFileNotFound { path: Vec<u8>, cause: Vec<u8> },
    /// A resource file's content is not a valid key-to-value map.
    LocaleFileDeser { path: Vec<u8>, cause: Vec<u8> },
    /// A value's interpolation syntax is malformed; `key` names the value.
    ParseError { key: Vec<u8>, position: usize, kind: ParseErrorKind },
    /// Two locales of one group disagree on their key sets: `keys` are
    /// missing from the locale named `locale`.
    MissingKeysInLocale { namespace: Option<Vec<u8>>, keys: Vec<Vec<u8>>, locale: Vec<u8> },
    /// One key is given two plural taxonomies across the group.
    PluralTypeMismatch { locale_key: Vec<u8>, namespace: Option<Vec<u8>> },
}

/// The name an error's optional namespace label denotes.
pub open spec fn opt_name_view(o: Option<Vec<u8>>) -> Option<Seq<u8>> {
    match o {
        None => None,
        Some(v) => Some(v@),
    }
}

} // verus!
