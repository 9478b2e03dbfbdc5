//! Why a datagram is not an SNMP notification.

use crate::text::{decimal, render_decimal};
use vstd::prelude::*;
use vstd::string::*;

verus! {

/// The kind of an SNMP protocol data unit.
#[derive(Clone, Copy, Debug, PartialEq, Eq, Structural)]
pub enum PduType {
    GetRequest,
    GetNextRequest,
    Response,
    SetRequest,
    TrapV1,
    GetBulkRequest,
    InformRequest,
    TrapV2,
    Report,
    Other(u32),
}

impl PduType {
    /// The kind that a context-specific tag number stands for.
    pub open spec fn of_code(code: u32) -> PduType {
        if code == 0 {
            PduType::GetRequest
        } else if code == 1 {
            PduType::GetNextRequest
        } else if code == 2 {
            PduType::Response
        } else if code == 3 {
            PduType::SetRequest
        } else if code == 4 {
            PduType::TrapV1
        } else if code == 5 {
            PduType::GetBulkRequest
        } else if code == 6 {
            PduType::InformRequest
        } else if code == 7 {
            PduType::TrapV2
        } else if code == 8 {
            PduType::Report
        } else {
            PduType::Other(code)
        }
    }

    /// The kind that a context-specific tag number stands for.
    pub fn from_code(code: u32) -> (r: PduType)
        ensures
            r == PduType::of_code(code),
    {
        match code {
            0 => PduType::GetRequest,
            1 => PduType::GetNextRequest,
            2 => PduType::Response,
            3 => PduType::SetRequest,
            4 => PduType::TrapV1,
            5 => PduType::GetBulkRequest,
            6 => PduType::InformRequest,
            7 => PduType::TrapV2,
            8 => PduType::Report,
            _ => PduType::Other(code),
        }
    }

    /// The tag number of this kind.
    pub open spec fn spec_code(self) -> u32 {
        match self {
            PduType::GetRequest => 0,
            PduType::GetNextRequest => 1,
            PduType::Response => 2,
            PduType::SetRequest => 3,
            PduType::TrapV1 => 4,
            PduType::GetBulkRequest => 5,
            PduType::InformRequest => 6,
            PduType::TrapV2 => 7,
            PduType::Report => 8,
            PduType::Other(code) => code,
        }
    }

    /// The tag number of this kind.
    pub fn code(self) -> (r: u32)
        ensures
            r == self.spec_code(),
    {
        match self {
            PduType::GetRequest => 0,
            PduType::GetNextRequest => 1,
            PduType::Response => 2,
            PduType::SetRequest => 3,
            PduType::TrapV1 => 4,
            PduType::GetBulkRequest => 5,
            PduType::InformRequest => 6,
            PduType::TrapV2 => 7,
            PduType::Report => 8,
            PduType::Other(code) => code,
        }
    }

    /// The name that error messages show.
    pub open spec fn spec_name(self) -> Seq<char> {
        match self {
            PduType::GetRequest => "GetRequest"@,
            PduType::GetNextRequest => "GetNextRequest"@,
            PduType::Response => "Response"@,
            PduType::SetRequest => "SetRequest"@,
            PduType::TrapV1 => "TrapV1"@,
            PduType::GetBulkRequest => "GetBulkRequest"@,
            PduType::InformRequest => "InformRequest"@,
            PduType::TrapV2 => "TrapV2"@,
            PduType::Report => "Report"@,
            PduType::Other(code) => "PduType("@ + decimal(code as nat) + ")"@,
        }
    }

    /// The name that error messages show.
    pub fn name(self) -> (r: String)
        ensures
            r@ == self.spec_name(),
    {
        match self {
            PduType::GetRequest => "GetRequest".to_owned(),
            PduType::GetNextRequest => "GetNextRequest".to_owned(),
            PduType::Response => "Response".to_owned(),
            PduType::SetRequest => "SetRequest".to_owned(),
            PduType::TrapV1 => "TrapV1".to_owned(),
            PduType::GetBulkRequest => "GetBulkRequest".to_owned(),
            PduType::InformRequest => "InformRequest".to_owned(),
            PduType::TrapV2 => "TrapV2".to_owned(),
            PduType::Report => "Report".to_owned(),
            PduType::Other(code) => "PduType(".to_owned().concat(
                render_decimal(code as u64).as_str(),
            ).concat(")"),
        }
    }
}

/// Why a datagram was refused.
#[derive(Debug)]
pub enum ParseError {
    MalformedMessage(String),
    UnsupportedVersion(&'static str),
    TrailingData(usize),
    InvalidPduType(PduType),
    InvalidV1Trap(&'static str),
    InvalidV2cNotification(&'static str),
    InvalidRequestId(&'static str),
}

/// A [`ParseError`] with its text as characters.
pub ghost enum ParseErrorView {
    MalformedMessage(Seq<char>),
    UnsupportedVersion(Seq<char>),
    TrailingData(nat),
    InvalidPduType(PduType),
    InvalidV1Trap(Seq<char>),
    InvalidV2cNotification(Seq<char>),
    InvalidRequestId(Seq<char>),
}

impl View for ParseError {
    type V = ParseErrorView;

    open spec fn view(&self) -> ParseErrorView {
        match self {
            ParseError::MalformedMessage(message) => ParseErrorView::MalformedMessage(message@),
            ParseError::UnsupportedVersion(message) => ParseErrorView::UnsupportedVersion(
                message@,
            ),
            ParseError::TrailingData(bytes) => ParseErrorView::TrailingData(*bytes as nat),
            ParseError::InvalidPduType(pdu_type) => ParseErrorView::InvalidPduType(*pdu_type),
            ParseError::InvalidV1Trap(message) => ParseErrorView::InvalidV1Trap(message@),
            ParseError::InvalidV2cNotification(
                message,
            ) => ParseErrorView::InvalidV2cNotification(message@),
            ParseError::InvalidRequestId(message) => ParseErrorView::InvalidRequestId(message@),
        }
    }
}

impl ParseErrorView {
    /// The sentence that reports the error.
    pub open spec fn message(self) -> Seq<char> {
        match self {
            ParseErrorView::MalformedMessage(message) => "failed to parse SNMP message: "@
                + message,
            ParseErrorView::UnsupportedVersion(message) => message,
            ParseErrorView::TrailingData(bytes) => "SNMP message contained "@ + decimal(bytes)
                + " trailing bytes"@,
            ParseErrorView::InvalidPduType(
                pdu_type,
            ) => "invalid PDU type for SNMP notification: "@ + pdu_type.spec_name(),
            ParseErrorView::InvalidV1Trap(message) => "invalid RFC 1157 SNMPv1 trap: "@ + message,
            ParseErrorView::InvalidV2cNotification(
                message,
            ) => "invalid RFC 3416 SNMPv2 notification: "@ + message,
            ParseErrorView::InvalidRequestId(message) => "invalid RFC 3416 request-id: "@
                + message,
        }
    }

    /// The short code that classifies the error.
    pub open spec fn code(self) -> Seq<char> {
        match self {
            ParseErrorView::MalformedMessage(_) => "malformed_message"@,
            ParseErrorView::UnsupportedVersion(_) => "unsupported_version"@,
            ParseErrorView::TrailingData(_) => "trailing_data"@,
            ParseErrorView::InvalidPduType(_) => "invalid_pdu_type"@,
            ParseErrorView::InvalidV1Trap(_) => "invalid_v1_trap"@,
            ParseErrorView::InvalidV2cNotification(_) => "invalid_v2c_notification"@,
            ParseErrorView::InvalidRequestId(_) => "invalid_request_id"@,
        }
    }
}

impl ParseError {
    /// The sentence that reports the error.
    pub fn message(&self) -> (r: String)
        ensures
            r@ == self@.message(),
    {
        match self {
            ParseError::MalformedMessage(message) => "failed to parse SNMP message: ".to_owned().concat(
                message.as_str(),
            ),
            ParseError::UnsupportedVersion(message) => (*message).to_owned(),
            ParseError::TrailingData(bytes) => "SNMP message contained ".to_owned().concat(
                render_decimal(*bytes as u64).as_str(),
            ).concat(" trailing bytes"),
            ParseError::InvalidPduType(
                pdu_type,
            ) => "invalid PDU type for SNMP notification: ".to_owned().concat(
                pdu_type.name().as_str(),
            ),
            ParseError::InvalidV1Trap(message) => "invalid RFC 1157 SNMPv1 trap: ".to_owned().concat(
                message,
            ),
            ParseError::InvalidV2cNotification(
                message,
            ) => "invalid RFC 3416 SNMPv2 notification: ".to_owned().concat(message),
            ParseError::InvalidRequestId(message) => "invalid RFC 3416 request-id: ".to_owned().concat(
                message,
            ),
        }
    }

    /// The short code that classifies the error.
    pub fn error_code(&self) -> (r: &'static str)
        ensures
            r@ == self@.code(),
    {
        match self {
            ParseError::MalformedMessage(_) => "malformed_message",
            ParseError::UnsupportedVersion(_) => "unsupported_version",
            ParseError::TrailingData(_) => "trailing_data",
            ParseError::InvalidPduType(_) => "invalid_pdu_type",
            ParseError::InvalidV1Trap(_) => "invalid_v1_trap",
            ParseError::InvalidV2cNotification(_) => "invalid_v2c_notification",
            ParseError::InvalidRequestId(_) => "invalid_request_id",
        }
    }
}

/// A result with the error seen as [`ParseErrorView`].
pub open spec fn viewed<T>(result: Result<T, ParseError>) -> Result<T, ParseErrorView> {
    match result {
        Ok(value) => Ok(value),
        Err(error) => Err(error@),
    }
}

/// The error for a message whose encoding is broken.
pub fn malformed(message: &str) -> (r: ParseError)
    ensures
        r@ == ParseErrorView::MalformedMessage(message@),
{
    ParseError::MalformedMessage(message.to_owned())
}

}
