//! The conditions that abort a parse.
use vstd::prelude::*;
use vstd::string::StringExecFns;

verus! {

/// Why a parse was abandoned.
#[derive(Debug, PartialEq, Eq)]
pub enum ParseFailure {
    /// The line source reported a failure; the text is the source's own report.
    Io(String),
    /// A declaration carried a type tag that is none of the nine keywords; the
    /// text is that tag.
    UnsupportedType(String),
}

/// A `ParseFailure` as a mathematical value.
pub enum FailureView {
    /// The line source reported a failure.
    Io(Seq<char>),
    /// A type tag that is none of the nine keywords.
    UnsupportedType(Seq<char>),
}

impl FailureView {
    /// The text that describes the failure to a reader.
    pub open spec fn message(self) -> Seq<char> {
        match self {
            FailureView::Io(report) => report,
            FailureView::UnsupportedType(tag) => "Unsupported type: "@ + tag,
        }
    }
}

impl View for ParseFailure {
    type V = FailureView;

    open spec fn view(&self) -> FailureView {
        match self {
            ParseFailure::Io(report) => FailureView::Io(report@),
            ParseFailure::UnsupportedType(tag) => FailureView::UnsupportedType(tag@),
        }
    }
}

impl ParseFailure {
    /// The text that describes the failure to a reader.
    pub fn message(&self) -> (r: String)
        ensures
            r@ == self@.message(),
    {
        match self {
            ParseFailure::Io(report) => report.clone(),
            ParseFailure::UnsupportedType(tag) => {
                let mut text = String::from_str("Unsupported type: ");
                text.append(tag.as_str());
                text
            },
        }
    }
}

impl Clone for ParseFailure {
    fn clone(&self) -> (r: Self)
        ensures
            r@ == self@,
    {
        match self {
            ParseFailure::Io(report) => ParseFailure::Io(report.clone()),
            ParseFailure::UnsupportedType(tag) => ParseFailure::UnsupportedType(tag.clone()),
        }
    }
}

} // verus!
