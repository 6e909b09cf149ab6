use vstd::prelude::*;

verus! {

/// Errors that the crate reports.
#[derive(Debug, PartialEq, Clone, Eq, Hash, Structural)]
pub enum UGError {
    /// An unsupported page was handed over for evaluation.
    InvalidHTMLError,
    /// An unsupported URL was handed over as the link of a tab.
    InvalidURLError,
    /// No basic data about the tab could be found in the page.
    NoBasicDataMatchError,
    /// Data found in the page did not have the expected form.
    UnexpectedWebResultError,
    /// The type label of a tab is not one the crate knows.
    UnknownTypeError,
}

/// The description of each error.
pub open spec fn error_message(e: UGError) -> Seq<char> {
    match e {
        UGError::InvalidHTMLError => "The type of this page is not readable for this API."@,
        UGError::InvalidURLError => "The URL does not match any known UG sites."@,
        UGError::NoBasicDataMatchError => "Could not find any basic data for the page."@,
        UGError::UnexpectedWebResultError => "Failed to analyze downloaded results."@,
        UGError::UnknownTypeError => "The type supplied by UG is not known."@,
    }
}

/// Different errors have different descriptions.
pub proof fn law_error_messages_distinct(a: UGError, b: UGError)
    requires
        a != b,
    ensures
        error_message(a) != error_message(b),
{
    reveal_strlit("The type of this page is not readable for this API.");
    reveal_strlit("The URL does not match any known UG sites.");
    reveal_strlit("Could not find any basic data for the page.");
    reveal_strlit("Failed to analyze downloaded results.");
    reveal_strlit("The type supplied by UG is not known.");
    assert(error_message(a).len() != error_message(b).len() || error_message(a)[0]
        != error_message(b)[0]);
}

impl UGError {
    /// Returns a brief description of the error.
    pub fn to_string(self) -> (s: String)
        ensures
            s@ == error_message(self),
    {
        match self {
            UGError::InvalidHTMLError => String::from_str("The type of this page is not readable for this API."),
            UGError::InvalidURLError => String::from_str("The URL does not match any known UG sites."),
            UGError::NoBasicDataMatchError => String::from_str("Could not find any basic data for the page."),
            UGError::UnexpectedWebResultError => String::from_str("Failed to analyze downloaded results."),
            UGError::UnknownTypeError => String::from_str("The type supplied by UG is not known."),
        }
    }
}

} // verus!
