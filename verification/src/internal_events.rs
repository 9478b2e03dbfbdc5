//! What the source reports about itself.

use crate::error::{ParseError, ParseErrorView};
use vstd::prelude::*;
use vstd::string::*;

verus! {

/// A datagram could not be parsed.
#[derive(Debug)]
pub struct SnmpTrapParseError {
    pub error: String,
    pub error_code: &'static str,
}

/// A [`SnmpTrapParseError`] as characters.
pub ghost struct ParseErrorReport {
    pub error: Seq<char>,
    pub error_code: Seq<char>,
}

impl View for SnmpTrapParseError {
    type V = ParseErrorReport;

    open spec fn view(&self) -> ParseErrorReport {
        ParseErrorReport { error: self.error@, error_code: self.error_code@ }
    }
}

/// What is reported of a parse error.
pub open spec fn parse_error_report(error: ParseErrorView) -> ParseErrorReport {
    ParseErrorReport { error: error.message(), error_code: error.code() }
}

impl SnmpTrapParseError {
    /// The report of a parse error.
    pub fn new(error: &ParseError) -> (r: SnmpTrapParseError)
        ensures
            r@ == parse_error_report(error@),
    {
        SnmpTrapParseError { error: error.message(), error_code: error.error_code() }
    }
}

/// A message came with a community string that is not allowed.
#[derive(Debug)]
pub struct SnmpTrapCommunityNotAllowedError {
    pub peer_addr: String,
}

impl SnmpTrapCommunityNotAllowedError {
    /// The short code that classifies the error.
    pub fn error_code(&self) -> (r: &'static str)
        ensures
            r@ == "community_not_allowed"@,
    {
        "community_not_allowed"
    }
}

} // verus!
