//! Command-line and environment text as the operating system hands it over.

use vstd::prelude::*;

verus! {

/// An OS string: either valid Unicode text, or raw bytes that do not form
/// valid UTF-8. Only the text form can be split into `KEY=VALUE` or have
/// variables expanded; raw bytes are always passed through unchanged.
#[derive(Debug, PartialEq, Eq)]
pub enum OsText {
    /// Valid Unicode text.
    Text(String),
    /// Bytes that are not valid UTF-8.
    Raw(Vec<u8>),
}

/// Mathematical model of an [`OsText`].
pub enum OsTextView {
    Text(Seq<char>),
    Raw(Seq<u8>),
}

impl View for OsText {
    type V = OsTextView;

    open spec fn view(&self) -> OsTextView {
        match self {
            OsText::Text(s) => OsTextView::Text(s@),
            OsText::Raw(b) => OsTextView::Raw(b@),
        }
    }
}

/// The view of each element of a sequence of OS strings.
pub open spec fn os_views(s: Seq<OsText>) -> Seq<OsTextView> {
    s.map_values(|t: OsText| t@)
}

/// The characters of a text token (empty for raw bytes).
pub open spec fn text_of(t: OsTextView) -> Seq<char> {
    match t {
        OsTextView::Text(s) => s,
        OsTextView::Raw(_) => Seq::empty(),
    }
}

impl OsText {
    /// A text value holding a copy of `s`.
    pub fn from_str(s: &str) -> (r: OsText)
        ensures
            r@ == OsTextView::Text(s@),
    {
        OsText::Text(s.to_owned())
    }

    /// A copy of this value.
    pub fn duplicate(&self) -> (r: OsText)
        ensures
            r@ == self@,
    {
        match self {
            OsText::Text(s) => OsText::Text(s.clone()),
            OsText::Raw(b) => OsText::Raw(b.clone()),
        }
    }
}

} // verus!
