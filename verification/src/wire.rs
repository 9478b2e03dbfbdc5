//! SNMP messages from bytes, by way of `snmp_parser`.

use crate::error::PduType;
use crate::model::{
    variables_view, BoundValue, GenericPduView, Message, MessageView, NetworkAddress, ObjectId,
    ObjectValue, ObjectView, OidView, PduView, SnmpGenericPdu, SnmpPdu, SnmpTrapPdu, TagClass,
    TrapPduView, UnknownValue, VarBindView, Variable, VariableView,
};
use snmp_parser::asn1_rs;
use snmp_parser::snmp;
use vstd::prelude::*;

verus! {

/// `snmp_parser::snmp::SnmpMessage`, an SNMPv1 or SNMPv2c message.
#[verifier::external_type_specification]
#[verifier::external_body]
pub struct ExSnmpMessage<'a>(snmp_parser::snmp::SnmpMessage<'a>);

/// `snmp_parser::snmp::SnmpVariable`, a variable binding.
#[verifier::external_type_specification]
#[verifier::external_body]
pub struct ExSnmpVariable<'a>(snmp_parser::snmp::SnmpVariable<'a>);

/// `snmp_parser::snmp::VarBindValue`, what a variable is bound to.
#[verifier::external_type_specification]
#[verifier::external_body]
pub struct ExVarBindValue<'a>(snmp_parser::snmp::VarBindValue<'a>);

/// `snmp_parser::snmp::ObjectSyntax`, a value of an object.
#[verifier::external_type_specification]
#[verifier::external_body]
pub struct ExObjectSyntax<'a>(snmp_parser::snmp::ObjectSyntax<'a>);

/// `asn1_rs::Oid`, an object identifier.
#[verifier::external_type_specification]
#[verifier::external_body]
pub struct ExOid<'a>(snmp_parser::asn1_rs::Oid<'a>);

/// `asn1_rs::Any`, a value of any type.
#[verifier::external_type_specification]
#[verifier::external_body]
pub struct ExAny<'a>(snmp_parser::asn1_rs::Any<'a>);

/// What a message holds.
pub uninterp spec fn message_view(message: snmp::SnmpMessage<'_>) -> MessageView;

/// What a variable binding holds.
pub uninterp spec fn variable_view(variable: snmp::SnmpVariable<'_>) -> VariableView;

/// What the value of a variable binding holds.
pub uninterp spec fn value_view(value: snmp::VarBindValue<'_>) -> VarBindView;

/// What a value of an object holds.
pub uninterp spec fn object_view(object: snmp::ObjectSyntax<'_>) -> ObjectView;

/// What an object identifier holds.
pub uninterp spec fn oid_view(oid: asn1_rs::Oid<'_>) -> OidView;

/// What a value of any type holds.
pub uninterp spec fn any_view(value: asn1_rs::Any<'_>) -> crate::model::UnknownView;

/// The message, and the bytes behind it, that `snmp_parser::parse_snmp_v1` finds in bytes.
pub uninterp spec fn snmp_v1(data: Seq<u8>) -> Option<(Seq<u8>, MessageView)>;

/// The message, and the bytes behind it, that `snmp_parser::parse_snmp_v2c` finds in bytes.
pub uninterp spec fn snmp_v2c(data: Seq<u8>) -> Option<(Seq<u8>, MessageView)>;

/// Whether `snmp_parser::parse_snmp_v3` finds a message in bytes.
pub uninterp spec fn snmp_v3(data: Seq<u8>) -> bool;

/// `snmp_parser::parse_snmp_v1` parses an SNMPv1 message, and returns it behind the bytes that
/// follow it. What it makes of which bytes is named, not stated.
#[verifier::external_body]
fn parse_v1(data: &[u8]) -> (r: Option<(&[u8], snmp::SnmpMessage<'_>)>)
    ensures
        match r {
            Some((rest, message)) => snmp_v1(data@) == Some((rest@, message_view(message))),
            None => snmp_v1(data@) is None,
        },
{
    snmp_parser::parse_snmp_v1(data).ok()
}

/// `snmp_parser::parse_snmp_v2c` parses an SNMPv2c message, and returns it behind the bytes that
/// follow it. What it makes of which bytes is named, not stated.
#[verifier::external_body]
fn parse_v2c(data: &[u8]) -> (r: Option<(&[u8], snmp::SnmpMessage<'_>)>)
    ensures
        match r {
            Some((rest, message)) => snmp_v2c(data@) == Some((rest@, message_view(message))),
            None => snmp_v2c(data@) is None,
        },
{
    snmp_parser::parse_snmp_v2c(data).ok()
}

/// Whether `snmp_parser::parse_snmp_v3` parses the bytes as an SNMPv3 message. Of which bytes it
/// does is named, not stated.
#[verifier::external_body]
pub(crate) fn is_v3(data: &[u8]) -> (r: bool)
    ensures
        r == snmp_v3(data@),
{
    snmp_parser::parse_snmp_v3(data).is_ok()
}

/// A PDU whose variable bindings and object identifiers are yet to be converted.
enum RawPdu<'a> {
    Generic(u32, Vec<snmp::SnmpVariable<'a>>),
    Bulk,
    TrapV1(RawTrap<'a>),
}

struct RawTrap<'a> {
    enterprise: asn1_rs::Oid<'a>,
    agent: [u8; 4],
    specific_trap: u32,
    timestamp: u32,
    var: Vec<snmp::SnmpVariable<'a>>,
}

spec fn raw_variables(variables: Seq<snmp::SnmpVariable<'_>>) -> Seq<VariableView> {
    variables.map_values(|variable: snmp::SnmpVariable<'_>| variable_view(variable))
}

spec fn raw_pdu_view(pdu: RawPdu<'_>) -> PduView {
    match pdu {
        RawPdu::Generic(code, var) => PduView::Generic(
            GenericPduView { pdu_type: PduType::of_code(code), var: raw_variables(var@) },
        ),
        RawPdu::Bulk => PduView::Bulk,
        RawPdu::TrapV1(trap) => PduView::TrapV1(
            TrapPduView {
                enterprise: oid_view(trap.enterprise),
                agent_addr: NetworkAddress::IPv4(
                    trap.agent@[0],
                    trap.agent@[1],
                    trap.agent@[2],
                    trap.agent@[3],
                ),
                specific_trap: trap.specific_trap,
                timestamp: trap.timestamp,
                var: raw_variables(trap.var@),
            },
        ),
    }
}

/// The community and the PDU of a `snmp_parser::snmp::SnmpMessage`, the PDU taken apart by the
/// variants of `snmp_parser::snmp::SnmpPdu`.
#[verifier::external_body]
fn message_parts<'a>(message: snmp::SnmpMessage<'a>) -> (r: (String, RawPdu<'a>))
    ensures
        message_view(message) == (MessageView { community: r.0@, pdu: raw_pdu_view(r.1) }),
{
    let pdu = match message.pdu {
        snmp::SnmpPdu::Generic(pdu) => RawPdu::Generic(pdu.pdu_type.0, pdu.var),
        snmp::SnmpPdu::Bulk(_) => RawPdu::Bulk,
        snmp::SnmpPdu::TrapV1(trap) => {
            let snmp::NetworkAddress::IPv4(agent) = trap.agent_addr;
            let (specific_trap, timestamp) = (trap.specific_trap, trap.timestamp);
            let (enterprise, agent, var) = (trap.enterprise, agent.octets(), trap.var);
            RawPdu::TrapV1(RawTrap { enterprise, agent, specific_trap, timestamp, var })
        },
    };
    (message.community, pdu)
}

/// The object identifier and the value of a `snmp_parser::snmp::SnmpVariable`.
#[verifier::external_body]
fn variable_parts<'b, 'a>(variable: &'b snmp::SnmpVariable<'a>) -> (r: (
    &'b asn1_rs::Oid<'a>,
    &'b snmp::VarBindValue<'a>,
))
    ensures
        variable_view(*variable) == (VariableView { oid: oid_view(*r.0), val: value_view(*r.1) }),
{
    (&variable.oid, &variable.val)
}

/// What a variable is bound to, with the value of an object yet to be converted.
enum RawValue<'b, 'a> {
    Value(&'b snmp::ObjectSyntax<'a>),
    Unspecified,
    NoSuchObject,
    NoSuchInstance,
    EndOfMibView,
}

spec fn raw_value_view(value: RawValue<'_, '_>) -> VarBindView {
    match value {
        RawValue::Value(object) => VarBindView::Value(object_view(*object)),
        RawValue::Unspecified => VarBindView::Unspecified,
        RawValue::NoSuchObject => VarBindView::NoSuchObject,
        RawValue::NoSuchInstance => VarBindView::NoSuchInstance,
        RawValue::EndOfMibView => VarBindView::EndOfMibView,
    }
}

/// A `snmp_parser::snmp::VarBindValue` taken apart by its variants.
#[verifier::external_body]
fn value_parts<'b, 'a>(value: &'b snmp::VarBindValue<'a>) -> (r: RawValue<'b, 'a>)
    ensures
        value_view(*value) == raw_value_view(r),
{
    match value {
        snmp::VarBindValue::Value(object) => RawValue::Value(object),
        snmp::VarBindValue::Unspecified => RawValue::Unspecified,
        snmp::VarBindValue::NoSuchObject => RawValue::NoSuchObject,
        snmp::VarBindValue::NoSuchInstance => RawValue::NoSuchInstance,
        snmp::VarBindValue::EndOfMibView => RawValue::EndOfMibView,
    }
}

/// The content octets of an `asn1_rs::Oid`, by `as_bytes`, and its text, by `to_string`. The text
/// is the one that `asn1_rs` gives the identifier; what it is for which octets is not stated.
#[verifier::external_body]
fn convert_oid(oid: &asn1_rs::Oid<'_>) -> (r: ObjectId)
    ensures
        r@ == oid_view(*oid),
{
    ObjectId { bytes: oid.as_bytes().to_vec(), text: oid.to_string() }
}

/// The class, form, tag number and content of an `asn1_rs::Any`.
#[verifier::external_body]
fn convert_any(value: &asn1_rs::Any<'_>) -> (r: UnknownValue)
    ensures
        r@ == any_view(*value),
{
    let class = match value.class() {
        asn1_rs::Class::Universal => TagClass::Universal,
        asn1_rs::Class::Application => TagClass::Application,
        asn1_rs::Class::ContextSpecific => TagClass::ContextSpecific,
        asn1_rs::Class::Private => TagClass::Private,
    };
    let (constructed, tag) = (value.header.constructed(), value.tag().0);
    UnknownValue { class, constructed, tag, bytes: value.as_bytes().to_vec() }
}

/// A `snmp_parser::snmp::ObjectSyntax` that is a number or empty.
#[verifier::external_body]
fn number_object(object: &snmp::ObjectSyntax<'_>) -> (r: Option<ObjectValue>)
    ensures
        match r {
            Some(value) => value@ == object_view(*object),
            None => !is_number(object_view(*object)),
        },
{
    match object {
        snmp::ObjectSyntax::Number(value) => Some(ObjectValue::Number(*value)),
        snmp::ObjectSyntax::Counter32(value) => Some(ObjectValue::Counter32(*value)),
        snmp::ObjectSyntax::Gauge32(value) => Some(ObjectValue::Gauge32(*value)),
        snmp::ObjectSyntax::TimeTicks(value) => Some(ObjectValue::TimeTicks(*value)),
        snmp::ObjectSyntax::Counter64(value) => Some(ObjectValue::Counter64(*value)),
        snmp::ObjectSyntax::UInteger32(value) => Some(ObjectValue::UInteger32(*value)),
        snmp::ObjectSyntax::Empty => Some(ObjectValue::Empty),
        _ => None,
    }
}

spec fn is_number(object: ObjectView) -> bool {
    ||| object is Number
    ||| object is Counter32
    ||| object is Gauge32
    ||| object is TimeTicks
    ||| object is Counter64
    ||| object is UInteger32
    ||| object is Empty
}

/// A `snmp_parser::snmp::ObjectSyntax` that is made of octets.
#[verifier::external_body]
fn octets_object(object: &snmp::ObjectSyntax<'_>) -> (r: Option<ObjectValue>)
    ensures
        match r {
            Some(value) => value@ == object_view(*object),
            None => !is_octets(object_view(*object)),
        },
{
    match object {
        snmp::ObjectSyntax::String(value) => Some(ObjectValue::String(value.to_vec())),
        snmp::ObjectSyntax::Opaque(value) => Some(ObjectValue::Opaque(value.to_vec())),
        snmp::ObjectSyntax::NsapAddress(value) => Some(ObjectValue::NsapAddress(value.to_vec())),
        snmp::ObjectSyntax::BitString(value) => {
            let (unused_bits, data) = (value.unused_bits, value.data.to_vec());
            Some(ObjectValue::BitString { unused_bits, data })
        },
        snmp::ObjectSyntax::IpAddress(snmp::NetworkAddress::IPv4(address)) => {
            let [a, b, c, d] = address.octets();
            Some(ObjectValue::IpAddress(NetworkAddress::IPv4(a, b, c, d)))
        },
        _ => None,
    }
}

spec fn is_octets(object: ObjectView) -> bool {
    ||| object is String
    ||| object is Opaque
    ||| object is NsapAddress
    ||| object is BitString
    ||| object is IpAddress
}

/// An object identifier or a value of a type that SNMP does not define.
enum RawObject<'b, 'a> {
    Object(&'b asn1_rs::Oid<'a>),
    UnknownSimple(&'b asn1_rs::Any<'a>),
    UnknownApplication(&'b asn1_rs::Any<'a>),
}

spec fn raw_object_view(object: RawObject<'_, '_>) -> ObjectView {
    match object {
        RawObject::Object(oid) => ObjectView::Object(oid_view(*oid)),
        RawObject::UnknownSimple(value) => ObjectView::UnknownSimple(any_view(*value)),
        RawObject::UnknownApplication(value) => ObjectView::UnknownApplication(any_view(*value)),
    }
}

/// A `snmp_parser::snmp::ObjectSyntax` that is an object identifier or of an unknown type.
#[verifier::external_body]
fn other_object<'b, 'a>(object: &'b snmp::ObjectSyntax<'a>) -> (r: Option<RawObject<'b, 'a>>)
    ensures
        match r {
            Some(value) => raw_object_view(value) == object_view(*object),
            None => is_number(object_view(*object)) || is_octets(object_view(*object)),
        },
{
    match object {
        snmp::ObjectSyntax::Object(oid) => Some(RawObject::Object(oid)),
        snmp::ObjectSyntax::UnknownSimple(value) => Some(RawObject::UnknownSimple(value)),
        snmp::ObjectSyntax::UnknownApplication(value) => {
            Some(RawObject::UnknownApplication(value))
        },
        _ => None,
    }
}

fn convert_object(object: &snmp::ObjectSyntax<'_>) -> (r: ObjectValue)
    ensures
        r@ == object_view(*object),
{
    if let Some(value) = number_object(object) {
        return value;
    }
    if let Some(value) = octets_object(object) {
        return value;
    }
    match other_object(object) {
        Some(RawObject::Object(oid)) => ObjectValue::Object(convert_oid(oid)),
        Some(RawObject::UnknownSimple(value)) => ObjectValue::UnknownSimple(convert_any(value)),
        Some(RawObject::UnknownApplication(value)) => ObjectValue::UnknownApplication(
            convert_any(value),
        ),
        None => ObjectValue::Empty,
    }
}

fn convert_variable(variable: &snmp::SnmpVariable<'_>) -> (r: Variable)
    ensures
        r@ == variable_view(*variable),
{
    let (oid, value) = variable_parts(variable);
    let val: BoundValue = match value_parts(value) {
        RawValue::Value(object) => BoundValue::Value(convert_object(object)),
        RawValue::Unspecified => BoundValue::Unspecified,
        RawValue::NoSuchObject => BoundValue::NoSuchObject,
        RawValue::NoSuchInstance => BoundValue::NoSuchInstance,
        RawValue::EndOfMibView => BoundValue::EndOfMibView,
    };
    Variable { oid: convert_oid(oid), val }
}

fn convert_variables(variables: &Vec<snmp::SnmpVariable<'_>>) -> (r: Vec<Variable>)
    ensures
        variables_view(r@) == raw_variables(variables@),
{
    let mut converted: Vec<Variable> = Vec::new();
    for index in 0..variables.len()
        invariant
            variables_view(converted@) == raw_variables(variables@).take(index as int),
    {
        let ghost before = variables_view(converted@);
        let variable = convert_variable(&variables[index]);
        converted.push(variable);
        assert(variables_view(converted@) =~= before.push(variable@));
        assert(raw_variables(variables@).take(index + 1) =~= before.push(
            raw_variables(variables@)[index as int],
        ));
    }
    assert(raw_variables(variables@).take(variables@.len() as int) =~= raw_variables(variables@));
    converted
}

fn convert_message(message: snmp::SnmpMessage<'_>) -> (r: Message)
    ensures
        r@ == message_view(message),
{
    let (community, pdu) = message_parts(message);
    let pdu: SnmpPdu = match pdu {
        RawPdu::Generic(code, var) => SnmpPdu::Generic(
            SnmpGenericPdu { pdu_type: PduType::from_code(code), var: convert_variables(&var) },
        ),
        RawPdu::Bulk => SnmpPdu::Bulk,
        RawPdu::TrapV1(trap) => SnmpPdu::TrapV1(
            SnmpTrapPdu {
                enterprise: convert_oid(&trap.enterprise),
                agent_addr: NetworkAddress::IPv4(
                    trap.agent[0],
                    trap.agent[1],
                    trap.agent[2],
                    trap.agent[3],
                ),
                specific_trap: trap.specific_trap,
                timestamp: trap.timestamp,
                var: convert_variables(&trap.var),
            },
        ),
    };
    Message { community, pdu }
}

/// A message and the bytes behind it, as mathematical values.
pub open spec fn parsed_view(parsed: Option<(&[u8], Message)>) -> Option<
    (Seq<u8>, MessageView),
> {
    match parsed {
        Some((rest, message)) => Some((rest@, message@)),
        None => None,
    }
}

/// Parses an SNMPv1 message. What follows the message comes with it.
pub fn parse_snmp_v1(data: &[u8]) -> (r: Option<(&[u8], Message)>)
    ensures
        parsed_view(r) == snmp_v1(data@),
{
    match parse_v1(data) {
        Some((rest, message)) => Some((rest, convert_message(message))),
        None => None,
    }
}

/// Parses an SNMPv2c message. What follows the message comes with it.
pub fn parse_snmp_v2c(data: &[u8]) -> (r: Option<(&[u8], Message)>)
    ensures
        parsed_view(r) == snmp_v2c(data@),
{
    match parse_v2c(data) {
        Some((rest, message)) => Some((rest, convert_message(message))),
        None => None,
    }
}

} // verus!
