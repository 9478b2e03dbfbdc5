//! The responses that acknowledge informs.

use crate::ber::{pow256, tlv_at, TlvView};
use crate::encode::{
    ber_value_octets, decoding_undoes_encoding, encode_application_integer, encode_ber_value,
    encode_integer_i64, encode_integer_u64, encode_sequence, encode_tlv, integer_octets,
    lemma_be_octets_count, lemma_integer_octets_count, length_octets, tlv_octets, tlv_reads_back,
};
use crate::error::ParseErrorView;
use crate::model::{
    variables_view, BoundValue, NetworkAddress, ObjectValue, ObjectView, SnmpGenericPdu,
    VarBindView, Variable, VariableView,
};
use crate::raw::{content_of, is_version, message_fields, v2c_request_id};
use vstd::prelude::*;

verus! {

/// The largest SNMP message that a UDP datagram can hold.
pub const MAX_SNMP_MESSAGE_SIZE: usize = 65_507;

/// `bytes::Bytes`, a shared buffer.
#[verifier::external_type_specification]
#[verifier::external_body]
pub struct ExBytes(bytes::Bytes);

/// The octets that a buffer holds.
pub uninterp spec fn buffered(buffer: bytes::Bytes) -> Seq<u8>;

/// `bytes::Bytes::from` makes a buffer of the octets of a vector.
#[verifier::external_body]
pub(crate) fn buffer_from(octets: Vec<u8>) -> (r: bytes::Bytes)
    ensures
        buffered(r) == octets@,
{
    bytes::Bytes::from(octets)
}

/// `bytes::Bytes::as_ref` gives the octets of a buffer.
#[verifier::external_body]
pub(crate) fn buffer_octets(buffer: &bytes::Bytes) -> (r: &[u8])
    ensures
        r@ == buffered(*buffer),
{
    buffer.as_ref()
}

/// The octets of a value of an object.
pub open spec fn object_octets(value: ObjectView) -> Seq<u8> {
    match value {
        ObjectView::Number(value) => tlv_octets(0x02, integer_octets(value as int)),
        ObjectView::String(value) => tlv_octets(0x04, value),
        ObjectView::Object(value) => tlv_octets(0x06, value.bytes),
        ObjectView::BitString { unused_bits, data } => tlv_octets(0x03, seq![unused_bits] + data),
        ObjectView::IpAddress(NetworkAddress::IPv4(a, b, c, d)) => tlv_octets(
            0x40,
            seq![a, b, c, d],
        ),
        ObjectView::Counter32(value) => tlv_octets(0x41, integer_octets(value as int)),
        ObjectView::Gauge32(value) => tlv_octets(0x42, integer_octets(value as int)),
        ObjectView::TimeTicks(value) => tlv_octets(0x43, integer_octets(value as int)),
        ObjectView::Opaque(value) => tlv_octets(0x44, value),
        ObjectView::NsapAddress(value) => tlv_octets(0x45, value),
        ObjectView::Counter64(value) => tlv_octets(0x46, integer_octets(value as int)),
        ObjectView::UInteger32(value) => tlv_octets(0x47, integer_octets(value as int)),
        ObjectView::Empty => tlv_octets(0x05, Seq::empty()),
        ObjectView::UnknownSimple(value) | ObjectView::UnknownApplication(value) => {
            ber_value_octets(value.class.spec_code(), value.constructed, value.tag, value.bytes)
        },
    }
}

/// The octets of what a variable is bound to.
pub open spec fn value_octets(value: VarBindView) -> Seq<u8> {
    match value {
        VarBindView::Value(value) => object_octets(value),
        VarBindView::Unspecified => tlv_octets(0x05, Seq::empty()),
        VarBindView::NoSuchObject => tlv_octets(0x80, Seq::empty()),
        VarBindView::NoSuchInstance => tlv_octets(0x81, Seq::empty()),
        VarBindView::EndOfMibView => tlv_octets(0x82, Seq::empty()),
    }
}

/// The octets of a variable binding.
pub open spec fn variable_octets(variable: VariableView) -> Seq<u8> {
    tlv_octets(0x30, tlv_octets(0x06, variable.oid.bytes) + value_octets(variable.val))
}

/// The octets of variable bindings, one behind the other.
pub open spec fn variables_octets(variables: Seq<VariableView>) -> Seq<u8>
    decreases variables.len(),
{
    if variables.len() == 0 {
        Seq::empty()
    } else {
        variables_octets(variables.drop_last()) + variable_octets(variables.last())
    }
}

/// The octets of a list of variable bindings.
pub open spec fn variable_list_octets(variables: Seq<VariableView>) -> Seq<u8> {
    tlv_octets(0x30, variables_octets(variables))
}

/// The octets of the PDU of a response.
pub open spec fn response_pdu_octets(
    request_id: int,
    error_status: int,
    error_index: int,
    variables: Seq<VariableView>,
) -> Seq<u8> {
    tlv_octets(0x02, integer_octets(request_id)) + tlv_octets(0x02, integer_octets(error_status))
        + tlv_octets(0x02, integer_octets(error_index)) + variable_list_octets(variables)
}

/// The octets of an SNMPv2c response.
pub open spec fn response_octets(
    community: Seq<u8>,
    request_id: int,
    error_status: int,
    error_index: int,
    variables: Seq<VariableView>,
) -> Seq<u8> {
    tlv_octets(
        0x30,
        tlv_octets(0x02, integer_octets(1)) + tlv_octets(0x04, community) + tlv_octets(
            0xa2,
            response_pdu_octets(request_id, error_status, error_index, variables),
        ),
    )
}

/// The response to an inform: it repeats the variable bindings, or reports `tooBig` without them
/// where a message cannot hold them. There is none where a message cannot hold even that.
pub open spec fn inform_response(
    community: Seq<u8>,
    request_id: int,
    variables: Seq<VariableView>,
) -> Option<Seq<u8>> {
    let full = response_octets(community, request_id, 0, 0, variables);
    let too_big = response_octets(community, request_id, 1, 0, Seq::empty());
    if full.len() <= MAX_SNMP_MESSAGE_SIZE {
        Some(full)
    } else if too_big.len() <= MAX_SNMP_MESSAGE_SIZE {
        Some(too_big)
    } else {
        None
    }
}

fn encode_empty(tag: u8) -> (r: Vec<u8>)
    ensures
        r@ == tlv_octets(tag, Seq::empty()),
{
    let content: Vec<u8> = Vec::new();
    assert(content@ =~= Seq::empty());
    encode_tlv(tag, content.as_slice())
}

/// Encodes a value of an object.
pub fn encode_object_value(value: &ObjectValue) -> (r: Vec<u8>)
    ensures
        r@ == object_octets(value@),
{
    match value {
        ObjectValue::Number(value) => encode_integer_i64(*value as i64),
        ObjectValue::String(value) => encode_tlv(0x04, value.as_slice()),
        ObjectValue::Object(value) => encode_tlv(0x06, value.bytes.as_slice()),
        ObjectValue::BitString { unused_bits, data } => {
            let mut content: Vec<u8> = Vec::new();
            content.push(*unused_bits);
            content.extend_from_slice(data.as_slice());
            assert(content@ =~= seq![*unused_bits] + data@);
            encode_tlv(0x03, content.as_slice())
        },
        ObjectValue::IpAddress(NetworkAddress::IPv4(a, b, c, d)) => {
            let mut content: Vec<u8> = Vec::new();
            content.push(*a);
            content.push(*b);
            content.push(*c);
            content.push(*d);
            assert(content@ =~= seq![*a, *b, *c, *d]);
            encode_tlv(0x40, content.as_slice())
        },
        ObjectValue::Counter32(value) => encode_application_integer(0x41, *value as u64),
        ObjectValue::Gauge32(value) => encode_application_integer(0x42, *value as u64),
        ObjectValue::TimeTicks(value) => encode_application_integer(0x43, *value as u64),
        ObjectValue::Opaque(value) => encode_tlv(0x44, value.as_slice()),
        ObjectValue::NsapAddress(value) => encode_tlv(0x45, value.as_slice()),
        ObjectValue::Counter64(value) => encode_application_integer(0x46, *value),
        ObjectValue::UInteger32(value) => encode_application_integer(0x47, *value as u64),
        ObjectValue::Empty => encode_empty(0x05),
        ObjectValue::UnknownSimple(value) | ObjectValue::UnknownApplication(value) => {
            encode_ber_value(
                value.class.code(),
                value.constructed,
                value.tag,
                value.bytes.as_slice(),
            )
        },
    }
}

/// Encodes what a variable is bound to.
pub fn encode_varbind_value(value: &BoundValue) -> (r: Vec<u8>)
    ensures
        r@ == value_octets(value@),
{
    match value {
        BoundValue::Value(value) => encode_object_value(value),
        BoundValue::Unspecified => encode_empty(0x05),
        BoundValue::NoSuchObject => encode_empty(0x80),
        BoundValue::NoSuchInstance => encode_empty(0x81),
        BoundValue::EndOfMibView => encode_empty(0x82),
    }
}

/// Encodes a list of variable bindings.
pub fn encode_varbind_list(variables: &[Variable]) -> (r: Vec<u8>)
    ensures
        r@ == variable_list_octets(variables_view(variables@)),
{
    let mut content: Vec<u8> = Vec::new();
    let ghost all = variables_view(variables@);
    assert(content@ =~= Seq::empty());
    for index in 0..variables.len()
        invariant
            all == variables_view(variables@),
            content@ == variables_octets(all.take(index as int)),
    {
        let ghost before = content@;
        let variable = &variables[index];
        let mut varbind = encode_tlv(0x06, variable.oid.bytes.as_slice());
        let mut value = encode_varbind_value(&variable.val);
        varbind.append(&mut value);
        let mut encoded = encode_sequence(varbind.as_slice());
        content.append(&mut encoded);
        proof {
            assert(all.take(index + 1).drop_last() =~= all.take(index as int));
            assert(all.take(index + 1).last() == variable@);
        }
    }
    assert(all.take(all.len() as int) =~= all);
    encode_sequence(content.as_slice())
}

/// Encodes an SNMPv2c response.
pub fn build_v2c_response(
    community: &[u8],
    request_id: i64,
    error_status: i64,
    error_index: i64,
    variables: Option<&[Variable]>,
) -> (r: bytes::Bytes)
    ensures
        buffered(r) == response_octets(
            community@,
            request_id as int,
            error_status as int,
            error_index as int,
            match variables {
                Some(variables) => variables_view(variables@),
                None => Seq::empty(),
            },
        ),
{
    let mut pdu = encode_integer_i64(request_id);
    let mut status = encode_integer_i64(error_status);
    pdu.append(&mut status);
    let mut index = encode_integer_i64(error_index);
    pdu.append(&mut index);
    let mut list: Vec<u8> = match variables {
        Some(variables) => encode_varbind_list(variables),
        None => {
            let none: Vec<Variable> = Vec::new();
            assert(variables_view(none@) =~= Seq::empty());
            encode_varbind_list(none.as_slice())
        },
    };
    pdu.append(&mut list);
    let mut message = encode_integer_u64(1);
    let mut name = encode_tlv(0x04, community);
    message.append(&mut name);
    let mut encoded = encode_tlv(0xa2, pdu.as_slice());
    message.append(&mut encoded);
    buffer_from(encode_sequence(message.as_slice()))
}

/// The octets of an optional buffer.
pub open spec fn opt_buffered(buffer: Option<bytes::Bytes>) -> Option<Seq<u8>> {
    match buffer {
        Some(buffer) => Some(buffered(buffer)),
        None => None,
    }
}

/// Builds the response to an inform.
pub fn build_inform_response(community: &[u8], request_id: i64, pdu: &SnmpGenericPdu) -> (r: Option<
    bytes::Bytes,
>)
    ensures
        opt_buffered(r) == inform_response(community@, request_id as int, pdu@.var),
{
    let response = build_v2c_response(community, request_id, 0, 0, Some(pdu.var.as_slice()));
    if buffer_octets(&response).len() <= MAX_SNMP_MESSAGE_SIZE {
        return Some(response);
    }
    let response = build_v2c_response(community, request_id, 1, 0, None);
    if buffer_octets(&response).len() <= MAX_SNMP_MESSAGE_SIZE {
        Some(response)
    } else {
        None
    }
}

proof fn lemma_regroup(a: Seq<u8>, b: Seq<u8>, c: Seq<u8>, d: Seq<u8>)
    ensures
        a + (b + c + d) == a + b + c + d,
        a + (b + c + d) == a + b + (c + d),
        a + b + c + d == a + b + (c + d),
        a + b + c + d + Seq::empty() == a + b + c + d,
{
    assert(a + (b + c + d) =~= a + b + c + d);
    assert(a + (b + c + d) =~= a + b + (c + d));
    assert(a + b + c + d + Seq::empty() =~= a + b + c + d);
}

/// The octets of an SNMPv2c message with a Response-PDU.
spec fn message_octets(community: Seq<u8>, content: Seq<u8>) -> Seq<u8> {
    tlv_octets(
        0x30,
        tlv_octets(0x02, integer_octets(1)) + tlv_octets(0x04, community) + tlv_octets(
            0xa2,
            content,
        ),
    )
}

/// The octets before the elements of a message.
spec fn message_head(community: Seq<u8>, content: Seq<u8>) -> Seq<u8> {
    seq![0x30u8] + length_octets(
        (tlv_octets(0x02, integer_octets(1)) + tlv_octets(0x04, community) + tlv_octets(
            0xa2,
            content,
        )).len(),
    )
}

#[verifier::opaque]
spec fn element(tag: u8, content: Seq<u8>) -> Seq<u8> {
    tlv_octets(tag, content)
}

/// Where the content of an element behind `prefix` starts.
spec fn start_behind(prefix: Seq<u8>, content: Seq<u8>) -> int {
    (prefix.len() + 1 + length_octets(content.len()).len()) as int
}

proof fn lemma_element_reads_back(
    data: Seq<u8>,
    prefix: Seq<u8>,
    tag: u8,
    content: Seq<u8>,
    rest: Seq<u8>,
)
    requires
        tag % 32 != 31,
        data == prefix + element(tag, content) + rest,
        data.len() <= usize::MAX,
    ensures
        tlv_at(data, prefix.len() as int) == Ok::<_, ParseErrorView>(
            TlvView {
                tag,
                content_start: start_behind(prefix, content),
                content_end: start_behind(prefix, content) + content.len(),
            },
        ),
        data.subrange(
            start_behind(prefix, content),
            start_behind(prefix, content) + content.len(),
        ) == content,
        start_behind(prefix, content) + content.len() == (prefix + element(tag, content)).len(),
{
    reveal(element);
    tlv_reads_back(prefix, tag, content, rest);
}

proof fn lemma_message_reads_back(community: Seq<u8>, content: Seq<u8>)
    requires
        message_octets(community, content).len() <= usize::MAX,
    ensures
        ({
            let data = message_octets(community, content);
            &&& message_fields(data) matches Ok((version, name, pdu))
            &&& is_version(data, version, 1) == Ok::<_, ParseErrorView>(true)
            &&& content_of(data, name) == community
            &&& pdu.tag == 0xa2
            &&& content_of(data, pdu) == content
            &&& pdu.content_start == start_behind(
                message_head(community, content) + tlv_octets(0x02, integer_octets(1))
                    + tlv_octets(0x04, community),
                content,
            )
        }),
{
    let data = message_octets(community, content);
    let one = integer_octets(1);
    let version = element(0x02, one);
    let name = element(0x04, community);
    let pdu = element(0xa2, content);
    let none = Seq::<u8>::empty();
    let head = message_head(community, content);
    let message = version + name + pdu;
    assert(data == element(0x30, message) && data == head + message) by {
        reveal(element);
    }
    assert(data =~= none + element(0x30, message) + none);
    lemma_element_reads_back(data, none, 0x30, message, none);
    assert(start_behind(none, message) == head.len()) by {
        reveal(element);
    }
    lemma_regroup(head, version, name, pdu);
    lemma_element_reads_back(data, head, 0x02, one, name + pdu);
    lemma_element_reads_back(data, head + version, 0x04, community, pdu);
    lemma_element_reads_back(data, head + version + name, 0xa2, content, none);
    decoding_undoes_encoding(1);
    assert(head + version + name == message_head(community, content) + tlv_octets(
        0x02,
        integer_octets(1),
    ) + tlv_octets(0x04, community)) by {
        reveal(element);
    }
}

proof fn lemma_request_id_reads_back(community: Seq<u8>, request_id: int, rest: Seq<u8>)
    requires
        i32::MIN <= request_id <= i32::MAX,
        message_octets(
            community,
            tlv_octets(0x02, integer_octets(request_id)) + rest,
        ).len() <= usize::MAX,
    ensures
        v2c_request_id(
            message_octets(community, tlv_octets(0x02, integer_octets(request_id)) + rest),
        ) == Ok::<_, ParseErrorView>(request_id as i64),
{
    let content = tlv_octets(0x02, integer_octets(request_id)) + rest;
    let data = message_octets(community, content);
    let head = message_head(community, content);
    let inner = head + tlv_octets(0x02, integer_octets(1)) + tlv_octets(0x04, community) + seq![
        0xa2u8,
    ] + length_octets(content.len());
    let id = element(0x02, integer_octets(request_id));
    lemma_message_reads_back(community, content);
    assert(content == id + rest) by {
        reveal(element);
    }
    assert(data =~= inner + content);
    assert(inner + content =~= inner + id + rest);
    lemma_element_reads_back(data, inner, 0x02, integer_octets(request_id), rest);
    decoding_undoes_encoding(request_id as i64);
}

/// A response is itself an SNMPv2c message: it reads back with version 1, the community and the
/// request-id that it was built with, and a Response-PDU.
pub proof fn response_reads_back(
    community: Seq<u8>,
    request_id: int,
    error_status: int,
    error_index: int,
    variables: Seq<VariableView>,
)
    requires
        i32::MIN <= request_id <= i32::MAX,
        response_octets(community, request_id, error_status, error_index, variables).len()
            <= usize::MAX,
    ensures
        ({
            let response = response_octets(
                community,
                request_id,
                error_status,
                error_index,
                variables,
            );
            &&& message_fields(response) matches Ok((version, name, pdu))
            &&& is_version(response, version, 1) == Ok::<_, ParseErrorView>(true)
            &&& content_of(response, name) == community
            &&& pdu.tag == 0xa2
            &&& content_of(response, pdu) == response_pdu_octets(
                request_id,
                error_status,
                error_index,
                variables,
            )
            &&& v2c_request_id(response) == Ok::<_, ParseErrorView>(request_id as i64)
        }),
{
    let content = response_pdu_octets(request_id, error_status, error_index, variables);
    let rest = tlv_octets(0x02, integer_octets(error_status)) + tlv_octets(
        0x02,
        integer_octets(error_index),
    ) + variable_list_octets(variables);
    let id = tlv_octets(0x02, integer_octets(request_id));
    lemma_regroup(
        id,
        tlv_octets(0x02, integer_octets(error_status)),
        tlv_octets(0x02, integer_octets(error_index)),
        variable_list_octets(variables),
    );
    lemma_message_reads_back(community, content);
    lemma_request_id_reads_back(community, request_id, rest);
}

proof fn lemma_length_octets_count(length: nat)
    requires
        length < 0x100_0000,
    ensures
        length_octets(length).len() <= 4,
        length < 0x1_0000 ==> length_octets(length).len() <= 3,
        length < 128 ==> length_octets(length).len() == 1,
{
    reveal_with_fuel(pow256, 4);
    lemma_be_octets_count(length, 3);
    if length < 0x1_0000 {
        lemma_be_octets_count(length, 2);
    }
}

/// An inform is owed a response whenever its community leaves room for the octets that a response
/// without variable bindings adds, 27 at most.
pub proof fn informs_with_room_are_answered(
    community: Seq<u8>,
    request_id: int,
    variables: Seq<VariableView>,
)
    requires
        i32::MIN <= request_id <= i32::MAX,
        community.len() + 27 <= MAX_SNMP_MESSAGE_SIZE,
    ensures
        inform_response(community, request_id, variables) is Some,
{
    let pdu = response_pdu_octets(request_id, 1, 0, Seq::empty());
    let message = tlv_octets(0x02, integer_octets(1)) + tlv_octets(0x04, community) + tlv_octets(
        0xa2,
        pdu,
    );
    reveal_with_fuel(pow256, 4);
    lemma_integer_octets_count(request_id, 4);
    assert(integer_octets(1).len() == 1 && integer_octets(0).len() == 1);
    lemma_length_octets_count(integer_octets(request_id).len());
    lemma_length_octets_count(1);
    lemma_length_octets_count(0);
    assert(variables_octets(Seq::empty()) =~= Seq::empty());
    assert(pdu.len() <= 14);
    lemma_length_octets_count(pdu.len());
    lemma_length_octets_count(community.len());
    assert(message.len() <= community.len() + 23);
    lemma_length_octets_count(message.len());
}

} // verus!
