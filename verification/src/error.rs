//! The error that the client reports: what failed, why, and where.

use crate::text::{replace_char, replaced};
use vstd::prelude::*;
use vstd::string::*;

verus! {

/// An error: a description of what failed, the text of the cause where
/// there is one, and a tag that names the place.
#[derive(Debug)]
pub struct RhustAppError {
    pub description: String,
    pub error: Option<String>,
    pub location: String,
}

/// What a `RhustAppError` holds, as plain values.
pub struct ErrorView {
    pub description: Seq<char>,
    pub error: Option<Seq<char>>,
    pub location: Seq<char>,
}

impl View for RhustAppError {
    type V = ErrorView;

    open spec fn view(&self) -> ErrorView {
        ErrorView {
            description: self.description@,
            error: match self.error {
                Some(cause) => Some(cause@),
                None => None,
            },
            location: self.location@,
        }
    }
}

impl Clone for RhustAppError {
    fn clone(&self) -> (copy: Self)
        ensures
            copy@ == self@,
    {
        RhustAppError {
            description: self.description.clone(),
            error: match &self.error {
                Some(cause) => Some(cause.clone()),
                None => None,
            },
            location: self.location.clone(),
        }
    }
}

impl ErrorView {
    /// The error as text: a block with one line each for the place, the
    /// description and, where there is one, the cause. The lines of the
    /// cause after its first are indented by four spaces.
    pub open spec fn text(self) -> Seq<char> {
        let head = "RhustAppError {\n       location : \""@ + self.location
            + "\",\n    description : \""@ + self.description + "\",\n"@;
        match self.error {
            Some(cause) => head + "          error : \""@ + replaced(cause, '\n', "\n    "@)
                + "\",\n}"@,
            None => head + "}"@,
        }
    }
}

impl RhustAppError {
    /// The error as text.
    pub fn to_string(&self) -> (text: String)
        ensures
            text@ == self@.text(),
    {
        let mut text = String::new();
        text.append("RhustAppError {\n       location : \"");
        text.append(self.location.as_str());
        text.append("\",\n    description : \"");
        text.append(self.description.as_str());
        text.append("\",\n");
        match &self.error {
            Some(cause) => {
                let indented = replace_char(cause.as_str(), '\n', "\n    ");
                text.append("          error : \"");
                text.append(indented.as_str());
                text.append("\",\n}");
                assert(text@ =~= self@.text());
            },
            None => {
                text.append("}");
                assert(text@ =~= self@.text());
            },
        }
        text
    }
}

/// Makes an error of a description, a cause and the tag of a place.
pub fn new_rhustapp_error(description: &str, err: Option<String>, location: &str) -> (error:
    RhustAppError)
    ensures
        error@ == (ErrorView {
            description: description@,
            error: match err {
                Some(cause) => Some(cause@),
                None => None,
            },
            location: location@,
        }),
{
    RhustAppError { description: description.to_owned(), error: err, location: location.to_owned() }
}

} // verus!
