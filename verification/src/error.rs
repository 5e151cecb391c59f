//! The closed set of failures that a query can report.

use vstd::prelude::*;

verus! {

/// Why a query over a feed or a subscription list failed.
///
/// Every failure of the library is one of these kinds, so a caller can tell
/// the end of the data ([`FeedError::OrdinalNotReached`]) from a document
/// that is broken ([`FeedError::StructuralParse`]).
#[derive(Clone, Copy, Debug, PartialEq, Eq, Structural)]
pub enum FeedError {
    /// The XML parser reported malformed input.
    StructuralParse,
    /// The document holds fewer matching elements than the ordinal asked for.
    OrdinalNotReached,
    /// The matched element does not carry the requested attribute.
    AttributeAbsent,
    /// No text follows the matched element.
    FieldAbsent,
    /// The date text is too short to hold the fields of its format.
    MalformedDate,
    /// No outline name contains the search key.
    KeyNoMatch,
}

impl FeedError {
    /// A short description for messages to the user.
    pub fn describe(&self) -> (message: &'static str)
        ensures
            message@ == match *self {
                FeedError::StructuralParse => "malformed XML"@,
                FeedError::OrdinalNotReached => "fewer matching elements than requested"@,
                FeedError::AttributeAbsent => "the element lacks the requested attribute"@,
                FeedError::FieldAbsent => "the element holds no text"@,
                FeedError::MalformedDate => "malformed date"@,
                FeedError::KeyNoMatch => "no feed matches the key"@,
            },
    {
        match self {
            FeedError::StructuralParse => "malformed XML",
            FeedError::OrdinalNotReached => "fewer matching elements than requested",
            FeedError::AttributeAbsent => "the element lacks the requested attribute",
            FeedError::FieldAbsent => "the element holds no text",
            FeedError::MalformedDate => "malformed date",
            FeedError::KeyNoMatch => "no feed matches the key",
        }
    }
}

} // verus!
