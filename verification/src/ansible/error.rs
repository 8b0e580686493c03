//! What can go wrong while release data is read and searched.

use vstd::prelude::*;
use vstd::string::StringExecFns;

verus! {

/// The error type of `reqwest`. Nothing of its inside is known here: a value
/// of it is only carried along.
#[verifier::external_type_specification]
#[verifier::external_body]
pub struct ExReqwestError(reqwest::Error);

/// What went wrong: each error ends the one query it came from.
#[derive(Debug)]
pub enum AnsibleError {
    /// A string that is no version, or no product; it carries that string.
    ParseError(String),
    /// No version in the range asked for, or none with an artifact.
    NoVersionFound,
    /// The package index could not be read.
    ReqwestError(reqwest::Error),
}

impl AnsibleError {
    /// The error for a string that did not parse.
    #[inline]
    pub fn parse_error(input: String) -> (e: AnsibleError)
        ensures
            e == AnsibleError::ParseError(input),
    {
        AnsibleError::ParseError(input)
    }

    /// The string that did not parse, where this is a parse error.
    pub fn get_parse_error(&self) -> (r: Option<String>)
        ensures
            match *self {
                AnsibleError::ParseError(s) => r == Some(s),
                _ => r is None,
            },
    {
        match self {
            AnsibleError::ParseError(s) => Some(s.clone()),
            _ => None,
        }
    }

    /// Whether a string did not parse.
    pub fn is_parse_error(&self) -> (r: bool)
        ensures
            r == (*self is ParseError),
    {
        match self {
            AnsibleError::ParseError(_) => true,
            _ => false,
        }
    }

    /// Whether a search found no version.
    pub fn is_no_version_found(&self) -> (r: bool)
        ensures
            r == (*self is NoVersionFound),
    {
        match self {
            AnsibleError::NoVersionFound => true,
            _ => false,
        }
    }

    /// Whether the package index could not be read.
    pub fn is_reqwest_error(&self) -> (r: bool)
        ensures
            r == (*self is ReqwestError),
    {
        match self {
            AnsibleError::ReqwestError(_) => true,
            _ => false,
        }
    }

    /// The message of a parse error, before the string that did not parse.
    pub open spec fn parse_error_prefix() -> Seq<char> {
        "Failed to parse: "@
    }

    /// The message of a search that found nothing.
    pub open spec fn no_version_found_text() -> Seq<char> {
        "No such version(s) found"@
    }

    /// The message of a failed request, before what `reqwest` says of it.
    pub open spec fn reqwest_error_prefix() -> Seq<char> {
        "HTTP (Reqwest) error: "@
    }

    /// The error as a line of text for people. For a failed request the line
    /// ends with what `reqwest` writes for its error.
    pub fn to_string(&self) -> (text: String)
        ensures
            match *self {
                AnsibleError::ParseError(input) => text@ == AnsibleError::parse_error_prefix() + input@,
                AnsibleError::NoVersionFound => text@ == AnsibleError::no_version_found_text(),
                AnsibleError::ReqwestError(err) => exists|detail: String|
                    #![trigger detail@]
                    vstd::string::to_string_from_display_ensures::<reqwest::Error>(&err, detail)
                        && text@ == AnsibleError::reqwest_error_prefix() + detail@,
            },
    {
        match self {
            AnsibleError::ParseError(input) => {
                let mut text = String::from_str("Failed to parse: ");
                text.append(input.as_str());
                text
            },
            AnsibleError::NoVersionFound => String::from_str("No such version(s) found"),
            AnsibleError::ReqwestError(err) => {
                let mut text = String::from_str("HTTP (Reqwest) error: ");
                let detail = err.to_string();
                text.append(detail.as_str());
                text
            },
        }
    }
}

impl PartialEq for AnsibleError {
    fn eq(&self, other: &AnsibleError) -> (r: bool) {
        match (self, other) {
            (AnsibleError::ParseError(a), AnsibleError::ParseError(b)) => *a == *b,
            (AnsibleError::NoVersionFound, AnsibleError::NoVersionFound) => true,
            _ => false,
        }
    }
}

impl vstd::std_specs::cmp::PartialEqSpecImpl for AnsibleError {
    open spec fn obeys_eq_spec() -> bool {
        true
    }

    /// Two parse errors are equal when they carry the same string, and a
    /// search that found nothing equals another. A failed request equals
    /// nothing, not even itself: `reqwest` offers no comparison.
    open spec fn eq_spec(&self, other: &AnsibleError) -> bool {
        match (*self, *other) {
            (AnsibleError::ParseError(a), AnsibleError::ParseError(b)) => a@ == b@,
            (AnsibleError::NoVersionFound, AnsibleError::NoVersionFound) => true,
            _ => false,
        }
    }
}

/// A failed request, carried as it is.
impl From<reqwest::Error> for AnsibleError {
    #[inline]
    fn from(err: reqwest::Error) -> (e: AnsibleError) {
        AnsibleError::ReqwestError(err)
    }
}

impl vstd::std_specs::convert::FromSpecImpl<reqwest::Error> for AnsibleError {
    open spec fn obeys_from_spec() -> bool {
        true
    }

    open spec fn from_spec(err: reqwest::Error) -> AnsibleError {
        AnsibleError::ReqwestError(err)
    }
}

} // verus!
