//! Compact strings for reference sequence names.
//!
//! Sequence names are short, so they are kept in `smartstring`'s inline
//! representation. Nothing in this file is proved: it states what the
//! `smartstring` crate is trusted to do.
use vstd::prelude::*;
use smartstring::{LazyCompact, SmartString};

verus! {

/// A reference sequence name held in a `smartstring::SmartString` of the
/// `LazyCompact` layout: inline while it is short, boxed once it is not.
#[verifier::external_body]
pub struct CompactName {
    inner: SmartString<LazyCompact>,
}

/// The characters that a compact name holds.
pub uninterp spec fn compact_text(name: CompactName) -> Seq<char>;

/// `SmartString::from(&str)`: the compact name holds the characters of
/// `name`, inline or boxed by its length.
#[verifier::external_body]
pub(crate) fn compact_from_str(name: &str) -> (compact: CompactName)
    ensures
        compact_text(compact) == name@,
{
    CompactName { inner: SmartString::from(name) }
}

/// `to_string` on a `SmartString`, which formats it through its `Display`
/// impl: the `String` holds the characters of the compact name.
#[verifier::external_body]
pub(crate) fn compact_to_string(name: &CompactName) -> (text: String)
    ensures
        text@ == compact_text(*name),
{
    name.inner.to_string()
}

impl CompactName {
    /// The name as a `String`.
    pub fn text(&self) -> (text: String)
        ensures
            text@ == compact_text(*self),
    {
        compact_to_string(self)
    }
}

} // verus!
