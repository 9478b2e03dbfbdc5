//! Reads the fields of an SNMP message that a decoder of unsigned numbers would distort: the
//! generic-trap of an SNMPv1 trap and the signed request-id of an SNMPv2c message.

use crate::ber::{
    be_value, decode_ber_integer_i64, integer_content, read_tlv_at, tag_number_end, tlv_at, BerTlv,
    TlvView,
};
use crate::error::{malformed, viewed, ParseError, ParseErrorView};
use vstd::prelude::*;

verus! {

/// An input must be used up by the message it holds.
pub fn ensure_consumed(remaining: &[u8]) -> (r: Result<(), ParseError>)
    ensures
        viewed(r) == (if remaining@.len() == 0 {
            Ok(())
        } else {
            Err(ParseErrorView::TrailingData(remaining@.len()))
        }),
{
    if remaining.len() == 0 {
        Ok(())
    } else {
        Err(ParseError::TrailingData(remaining.len()))
    }
}

/// The request-id range of RFC 3416.
pub open spec fn checked_request_id(value: i64) -> Result<i64, ParseErrorView> {
    if i32::MIN <= value <= i32::MAX {
        Ok(value)
    } else {
        Err(
            ParseErrorView::InvalidRequestId(
                "request-id must fit the signed 32-bit RFC 3416 range"@,
            ),
        )
    }
}

/// Passes a request-id that fits the range of RFC 3416.
pub fn validate_request_id(value: i64) -> (r: Result<i64, ParseError>)
    ensures
        viewed(r) == checked_request_id(value),
{
    if i32::MIN as i64 <= value && value <= i32::MAX as i64 {
        Ok(value)
    } else {
        Err(
            ParseError::InvalidRequestId("request-id must fit the signed 32-bit RFC 3416 range"),
        )
    }
}

/// The version, community and PDU elements of a message.
pub open spec fn message_fields(data: Seq<u8>) -> Result<
    (TlvView, TlvView, TlvView),
    ParseErrorView,
> {
    match tlv_at(data, 0) {
        Err(error) => Err(error),
        Ok(message) => if message.tag != 0x30 {
            Err(ParseErrorView::MalformedMessage("SNMP message must start with a sequence"@))
        } else {
            match tlv_at(data, message.content_start) {
                Err(error) => Err(error),
                Ok(version) => match tlv_at(data, version.content_end) {
                    Err(error) => Err(error),
                    Ok(community) => match tlv_at(data, community.content_end) {
                        Err(error) => Err(error),
                        Ok(pdu) => Ok((version, community, pdu)),
                    },
                },
            }
        },
    }
}

/// The content of an element.
pub open spec fn content_of(data: Seq<u8>, tlv: TlvView) -> Seq<u8> {
    data.subrange(tlv.content_start, tlv.content_end)
}

/// Reads the version, community and PDU elements of a message.
pub fn raw_message_fields(data: &[u8]) -> (r: Result<
    (BerTlv<'_>, BerTlv<'_>, BerTlv<'_>),
    ParseError,
>)
    ensures
        match r {
            Ok((version, community, pdu)) => {
                &&& message_fields(data@) == Ok::<_, ParseErrorView>((version@, community@, pdu@))
                &&& version.within(data@)
                &&& community.within(data@)
                &&& pdu.within(data@)
            },
            Err(error) => message_fields(data@) == Err::<(TlvView, TlvView, TlvView), _>(error@),
        },
{
    let message = match read_tlv_at(data, 0) {
        Ok(message) => message,
        Err(error) => {
            return Err(error);
        },
    };
    if message.tag != 0x30 {
        return Err(malformed("SNMP message must start with a sequence"));
    }
    let version = match read_tlv_at(data, message.content_start) {
        Ok(version) => version,
        Err(error) => {
            return Err(error);
        },
    };
    let community = match read_tlv_at(data, version.tlv_end) {
        Ok(community) => community,
        Err(error) => {
            return Err(error);
        },
    };
    let pdu = match read_tlv_at(data, community.tlv_end) {
        Ok(pdu) => pdu,
        Err(error) => {
            return Err(error);
        },
    };
    Ok((version, community, pdu))
}

/// Whether the version element is the INTEGER `number`. A content that is too long is an error.
pub open spec fn is_version(data: Seq<u8>, version: TlvView, number: int) -> Result<
    bool,
    ParseErrorView,
> {
    if version.tag != 0x02 {
        Ok(false)
    } else {
        match integer_content(content_of(data, version)) {
            Err(error) => Err(error),
            Ok(value) => Ok(value == number),
        }
    }
}

fn has_version(data: &[u8], version: &BerTlv<'_>, number: i64) -> (r: Result<bool, ParseError>)
    requires
        version.within(data@),
    ensures
        viewed(r) == is_version(data@, version@, number as int),
{
    if version.tag != 0x02 {
        return Ok(false);
    }
    match decode_ber_integer_i64(version.content) {
        Ok(value) => Ok(value == number),
        Err(error) => Err(error),
    }
}

/// The generic-trap of an SNMPv1 trap, as the sender encoded it.
pub open spec fn v1_generic_trap(data: Seq<u8>) -> Result<i64, ParseErrorView> {
    match message_fields(data) {
        Err(error) => Err(error),
        Ok((version, _, pdu)) => match is_version(data, version, 0) {
            Err(error) => Err(error),
            Ok(false) => Err(
                ParseErrorView::MalformedMessage("SNMP message did not contain SNMPv1 version"@),
            ),
            Ok(true) => if pdu.tag != 0xa4 {
                Err(ParseErrorView::MalformedMessage("SNMPv1 message did not contain a Trap-PDU"@))
            } else {
                match tlv_at(data, pdu.content_start) {
                    Err(error) => Err(error),
                    Ok(enterprise) => match tlv_at(data, enterprise.content_end) {
                        Err(error) => Err(error),
                        Ok(agent) => match tlv_at(data, agent.content_end) {
                            Err(error) => Err(error),
                            Ok(generic_trap) => if generic_trap.tag != 0x02 {
                                Err(
                                    ParseErrorView::MalformedMessage(
                                        "SNMPv1 generic-trap was not encoded as an INTEGER"@,
                                    ),
                                )
                            } else {
                                integer_content(content_of(data, generic_trap))
                            },
                        },
                    },
                }
            },
        },
    }
}

/// Reads the generic-trap of an SNMPv1 trap.
pub fn raw_v1_generic_trap(data: &[u8]) -> (r: Result<i64, ParseError>)
    ensures
        viewed(r) == v1_generic_trap(data@),
{
    let (version, _, pdu) = match raw_message_fields(data) {
        Ok(fields) => fields,
        Err(error) => {
            return Err(error);
        },
    };
    match has_version(data, &version, 0) {
        Ok(true) => {},
        Ok(false) => {
            return Err(malformed("SNMP message did not contain SNMPv1 version"));
        },
        Err(error) => {
            return Err(error);
        },
    }
    if pdu.tag != 0xa4 {
        return Err(malformed("SNMPv1 message did not contain a Trap-PDU"));
    }
    let enterprise = match read_tlv_at(data, pdu.content_start) {
        Ok(enterprise) => enterprise,
        Err(error) => {
            return Err(error);
        },
    };
    let agent = match read_tlv_at(data, enterprise.tlv_end) {
        Ok(agent) => agent,
        Err(error) => {
            return Err(error);
        },
    };
    let generic_trap = match read_tlv_at(data, agent.tlv_end) {
        Ok(generic_trap) => generic_trap,
        Err(error) => {
            return Err(error);
        },
    };
    if generic_trap.tag != 0x02 {
        return Err(malformed("SNMPv1 generic-trap was not encoded as an INTEGER"));
    }
    decode_ber_integer_i64(generic_trap.content)
}

/// The request-id of an SNMPv2c message, as the sender encoded it.
pub open spec fn v2c_request_id(data: Seq<u8>) -> Result<i64, ParseErrorView> {
    match message_fields(data) {
        Err(error) => Err(error),
        Ok((version, _, pdu)) => match is_version(data, version, 1) {
            Err(error) => Err(error),
            Ok(false) => Err(
                ParseErrorView::MalformedMessage("SNMP message did not contain SNMPv2c version"@),
            ),
            Ok(true) => match tlv_at(data, pdu.content_start) {
                Err(error) => Err(error),
                Ok(request_id) => if request_id.tag != 0x02 {
                    Err(
                        ParseErrorView::MalformedMessage(
                            "SNMPv2c request-id was not encoded as an INTEGER"@,
                        ),
                    )
                } else {
                    match integer_content(content_of(data, request_id)) {
                        Err(error) => Err(error),
                        Ok(value) => checked_request_id(value),
                    }
                },
            },
        },
    }
}

/// Reads the request-id of an SNMPv2c message.
pub fn raw_v2c_request_id(data: &[u8]) -> (r: Result<i64, ParseError>)
    ensures
        viewed(r) == v2c_request_id(data@),
{
    let (version, _, pdu) = match raw_message_fields(data) {
        Ok(fields) => fields,
        Err(error) => {
            return Err(error);
        },
    };
    match has_version(data, &version, 1) {
        Ok(true) => {},
        Ok(false) => {
            return Err(malformed("SNMP message did not contain SNMPv2c version"));
        },
        Err(error) => {
            return Err(error);
        },
    }
    let request_id = match read_tlv_at(data, pdu.content_start) {
        Ok(request_id) => request_id,
        Err(error) => {
            return Err(error);
        },
    };
    if request_id.tag != 0x02 {
        return Err(malformed("SNMPv2c request-id was not encoded as an INTEGER"));
    }
    match decode_ber_integer_i64(request_id.content) {
        Ok(value) => validate_request_id(value),
        Err(error) => Err(error),
    }
}

/// The octets with those from `start` up to `end` set to zero.
pub open spec fn zeroed(data: Seq<u8>, start: int, end: int) -> Seq<u8> {
    Seq::new(
        data.len(),
        |index: int|
            if start <= index < end {
                0
            } else {
                data[index]
            },
    )
}

/// An SNMPv2c message whose request-id is negative, with the content of the request-id zeroed and
/// the request-id beside it. `None` for a message that is not SNMPv2c, holds no PDU, or has no
/// negative request-id.
pub open spec fn negative_request_id_patch(data: Seq<u8>) -> Result<
    Option<(Seq<u8>, i64)>,
    ParseErrorView,
> {
    match message_fields(data) {
        Err(_) => Ok(None),
        Ok((version, _, pdu)) => match is_version(data, version, 1) {
            Err(error) => Err(error),
            Ok(false) => Ok(None),
            Ok(true) => if pdu.tag / 32 != 5 {
                Ok(None)
            } else {
                match tlv_at(data, pdu.content_start) {
                    Err(error) => Err(error),
                    Ok(request_id) => if request_id.tag != 0x02 {
                        Ok(None)
                    } else {
                        match integer_content(content_of(data, request_id)) {
                            Err(error) => Err(error),
                            Ok(value) => match checked_request_id(value) {
                                Err(error) => Err(error),
                                Ok(value) => if value >= 0 {
                                    Ok(None)
                                } else {
                                    Ok(
                                        Some(
                                            (
                                                zeroed(
                                                    data,
                                                    request_id.content_start,
                                                    request_id.content_end,
                                                ),
                                                value,
                                            ),
                                        ),
                                    )
                                },
                            },
                        }
                    },
                }
            },
        },
    }
}

fn zero(data: &[u8], start: usize, end: usize) -> (r: Vec<u8>)
    ensures
        r@ == zeroed(data@, start as int, end as int),
{
    let mut patched: Vec<u8> = Vec::new();
    for index in 0..data.len()
        invariant
            patched@ == zeroed(data@, start as int, end as int).take(index as int),
    {
        if start <= index && index < end {
            patched.push(0);
        } else {
            patched.push(data[index]);
        }
    }
    patched
}

/// Zeroes the request-id of an SNMPv2c message where it is negative, and returns it beside the
/// patched message.
pub fn patch_negative_v2c_request_id(data: &[u8]) -> (r: Result<
    Option<(Vec<u8>, i64)>,
    ParseError,
>)
    ensures
        match r {
            Ok(Some((patched, request_id))) => negative_request_id_patch(data@) == Ok::<
                _,
                ParseErrorView,
            >(Some((patched@, request_id))),
            Ok(None) => negative_request_id_patch(data@) == Ok::<_, ParseErrorView>(
                None::<(Seq<u8>, i64)>,
            ),
            Err(error) => negative_request_id_patch(data@) == Err::<Option<(Seq<u8>, i64)>, _>(
                error@,
            ),
        },
{
    let (version, _, pdu) = match raw_message_fields(data) {
        Ok(fields) => fields,
        Err(_) => {
            return Ok(None);
        },
    };
    match has_version(data, &version, 1) {
        Ok(true) => {},
        Ok(false) => {
            return Ok(None);
        },
        Err(error) => {
            return Err(error);
        },
    }
    if pdu.tag / 32 != 5 {
        return Ok(None);
    }
    let request_id = match read_tlv_at(data, pdu.content_start) {
        Ok(request_id) => request_id,
        Err(error) => {
            return Err(error);
        },
    };
    if request_id.tag != 0x02 {
        return Ok(None);
    }
    let value: i64 = match decode_ber_integer_i64(request_id.content) {
        Ok(value) => value,
        Err(error) => {
            return Err(error);
        },
    };
    let value: i64 = match validate_request_id(value) {
        Ok(value) => value,
        Err(error) => {
            return Err(error);
        },
    };
    if value >= 0 {
        return Ok(None);
    }
    Ok(Some((zero(data, request_id.content_start, request_id.content_end), value)))
}

proof fn lemma_tag_number_end_local(data: Seq<u8>, other: Seq<u8>, cursor: int, limit: int)
    requires
        data.len() == other.len(),
        limit <= data.len(),
        forall|index: int| 0 <= index < limit ==> #[trigger] data[index] == other[index],
        tag_number_end(data, cursor) matches Some(end) && end <= limit,
    ensures
        tag_number_end(other, cursor) == tag_number_end(data, cursor),
        tag_number_end(data, cursor)->0 > cursor,
    decreases data.len() - cursor,
{
    if data[cursor] >= 0x80 {
        lemma_tag_number_end_past(data, cursor + 1);
        lemma_tag_number_end_local(data, other, cursor + 1, limit);
    }
}

proof fn lemma_tag_number_end_past(data: Seq<u8>, cursor: int)
    ensures
        tag_number_end(data, cursor) matches Some(end) ==> cursor < end,
    decreases data.len() - cursor,
{
    if 0 <= cursor < data.len() && data[cursor] >= 0x80 {
        lemma_tag_number_end_past(data, cursor + 1);
    }
}

/// An element is found by the octets up to its content alone.
proof fn lemma_tlv_at_local(data: Seq<u8>, other: Seq<u8>, offset: int, limit: int)
    requires
        data.len() == other.len(),
        limit <= data.len(),
        forall|index: int| 0 <= index < limit ==> #[trigger] data[index] == other[index],
        tlv_at(data, offset) matches Ok(tlv) && tlv.content_start <= limit,
    ensures
        tlv_at(other, offset) == tlv_at(data, offset),
        offset < tlv_at(data, offset)->Ok_0.content_start,
{
    reveal(tlv_at);
    let tlv = tlv_at(data, offset)->Ok_0;
    if data[offset] % 32 == 31 {
        lemma_tag_number_end_past(data, offset + 1);
        lemma_tag_number_end_local(data, other, offset + 1, limit);
    }
    let length_offset = if data[offset] % 32 == 31 {
        tag_number_end(data, offset + 1)->0
    } else {
        offset + 1
    };
    assert(data[length_offset] == other[length_offset]);
    let count = data[length_offset] - 0x80;
    if count > 0 {
        assert(data.subrange(length_offset + 1, length_offset + 1 + count) =~= other.subrange(
            length_offset + 1,
            length_offset + 1 + count,
        ));
    }
}

proof fn lemma_zeros_are_zero(octets: Seq<u8>)
    requires
        forall|index: int| 0 <= index < octets.len() ==> #[trigger] octets[index] == 0,
    ensures
        be_value(octets) == 0,
    decreases octets.len(),
{
    if octets.len() > 0 {
        lemma_zeros_are_zero(octets.drop_last());
    }
}

/// A patched message keeps its length and its elements; its request-id reads zero, where that of
/// the message itself reads negative and is the one reported beside the patch.
pub proof fn patch_replaces_the_request_id_alone(data: Seq<u8>, patched: Seq<u8>, request_id: i64)
    requires
        negative_request_id_patch(data) == Ok::<_, ParseErrorView>(Some((patched, request_id))),
    ensures
        i32::MIN <= request_id < 0,
        v2c_request_id(data) == Ok::<_, ParseErrorView>(request_id),
        v2c_request_id(patched) == Ok::<_, ParseErrorView>(0i64),
        patched.len() == data.len(),
        message_fields(patched) == message_fields(data),
        ({
            let pdu = message_fields(data)->Ok_0.2;
            let element = tlv_at(data, pdu.content_start)->Ok_0;
            &&& tlv_at(patched, pdu.content_start) == tlv_at(data, pdu.content_start)
            &&& forall|index: int|
                0 <= index < data.len() && !(element.content_start <= index < element.content_end)
                    ==> #[trigger] patched[index] == data[index]
        }),
{
    reveal(tlv_at);
    let (version, community, pdu) = message_fields(data)->Ok_0;
    let message = tlv_at(data, 0)->Ok_0;
    let element = tlv_at(data, pdu.content_start)->Ok_0;
    let limit = element.content_start;
    lemma_tlv_at_local(data, data, community.content_end, pdu.content_start);
    lemma_tlv_at_local(data, data, version.content_end, community.content_start);
    lemma_tlv_at_local(data, data, message.content_start, version.content_start);
    lemma_tlv_at_local(data, patched, pdu.content_start, limit);
    lemma_tlv_at_local(data, patched, community.content_end, limit);
    lemma_tlv_at_local(data, patched, version.content_end, limit);
    lemma_tlv_at_local(data, patched, message.content_start, limit);
    lemma_tlv_at_local(data, patched, 0, limit);
    assert(content_of(patched, version) =~= content_of(data, version));
    lemma_zeros_are_zero(content_of(patched, element));
    assert(content_of(patched, element).len() == content_of(data, element).len());
}

} // verus!
