//! SNMP messages as plain values.

use crate::error::PduType;
use vstd::prelude::*;

verus! {

/// An object identifier.
#[derive(Clone, Debug, PartialEq, Eq)]
pub struct ObjectId {
    /// The content octets of its encoding.
    pub bytes: Vec<u8>,
    /// Its dotted text.
    pub text: String,
}

/// An [`ObjectId`] as mathematical values.
pub ghost struct OidView {
    pub bytes: Seq<u8>,
    pub text: Seq<char>,
}

impl View for ObjectId {
    type V = OidView;

    open spec fn view(&self) -> OidView {
        OidView { bytes: self.bytes@, text: self.text@ }
    }
}

/// A network address.
#[derive(Clone, Copy, Debug, PartialEq, Eq, Structural)]
pub enum NetworkAddress {
    IPv4(u8, u8, u8, u8),
}

/// The class of a tag.
#[derive(Clone, Copy, Debug, PartialEq, Eq, Structural)]
pub enum TagClass {
    Universal,
    Application,
    ContextSpecific,
    Private,
}

impl TagClass {
    /// The number of the class in an identifier octet.
    pub open spec fn spec_code(self) -> u8 {
        match self {
            TagClass::Universal => 0,
            TagClass::Application => 1,
            TagClass::ContextSpecific => 2,
            TagClass::Private => 3,
        }
    }

    /// The number of the class in an identifier octet.
    pub fn code(self) -> (r: u8)
        ensures
            r == self.spec_code(),
    {
        match self {
            TagClass::Universal => 0,
            TagClass::Application => 1,
            TagClass::ContextSpecific => 2,
            TagClass::Private => 3,
        }
    }

    /// The name of the class.
    pub open spec fn spec_name(self) -> Seq<char> {
        match self {
            TagClass::Universal => "UNIVERSAL"@,
            TagClass::Application => "APPLICATION"@,
            TagClass::ContextSpecific => "CONTEXT-SPECIFIC"@,
            TagClass::Private => "PRIVATE"@,
        }
    }

    /// The name of the class.
    pub fn name(self) -> (r: &'static str)
        ensures
            r@ == self.spec_name(),
    {
        match self {
            TagClass::Universal => "UNIVERSAL",
            TagClass::Application => "APPLICATION",
            TagClass::ContextSpecific => "CONTEXT-SPECIFIC",
            TagClass::Private => "PRIVATE",
        }
    }
}

/// A value of a type that SNMP does not define.
#[derive(Clone, Debug, PartialEq, Eq)]
pub struct UnknownValue {
    pub class: TagClass,
    pub constructed: bool,
    pub tag: u32,
    pub bytes: Vec<u8>,
}

/// An [`UnknownValue`] as mathematical values.
pub ghost struct UnknownView {
    pub class: TagClass,
    pub constructed: bool,
    pub tag: u32,
    pub bytes: Seq<u8>,
}

impl View for UnknownValue {
    type V = UnknownView;

    open spec fn view(&self) -> UnknownView {
        UnknownView {
            class: self.class,
            constructed: self.constructed,
            tag: self.tag,
            bytes: self.bytes@,
        }
    }
}

/// A value of an object.
#[derive(Clone, Debug, PartialEq, Eq)]
pub enum ObjectValue {
    Number(i32),
    String(Vec<u8>),
    Object(ObjectId),
    BitString { unused_bits: u8, data: Vec<u8> },
    Empty,
    UnknownSimple(UnknownValue),
    IpAddress(NetworkAddress),
    Counter32(u32),
    Gauge32(u32),
    TimeTicks(u32),
    Opaque(Vec<u8>),
    NsapAddress(Vec<u8>),
    Counter64(u64),
    UInteger32(u32),
    UnknownApplication(UnknownValue),
}

/// An [`ObjectValue`] as mathematical values.
pub ghost enum ObjectView {
    Number(i32),
    String(Seq<u8>),
    Object(OidView),
    BitString { unused_bits: u8, data: Seq<u8> },
    Empty,
    UnknownSimple(UnknownView),
    IpAddress(NetworkAddress),
    Counter32(u32),
    Gauge32(u32),
    TimeTicks(u32),
    Opaque(Seq<u8>),
    NsapAddress(Seq<u8>),
    Counter64(u64),
    UInteger32(u32),
    UnknownApplication(UnknownView),
}

impl View for ObjectValue {
    type V = ObjectView;

    open spec fn view(&self) -> ObjectView {
        match self {
            ObjectValue::Number(value) => ObjectView::Number(*value),
            ObjectValue::String(value) => ObjectView::String(value@),
            ObjectValue::Object(value) => ObjectView::Object(value@),
            ObjectValue::BitString { unused_bits, data } => ObjectView::BitString {
                unused_bits: *unused_bits,
                data: data@,
            },
            ObjectValue::Empty => ObjectView::Empty,
            ObjectValue::UnknownSimple(value) => ObjectView::UnknownSimple(value@),
            ObjectValue::IpAddress(value) => ObjectView::IpAddress(*value),
            ObjectValue::Counter32(value) => ObjectView::Counter32(*value),
            ObjectValue::Gauge32(value) => ObjectView::Gauge32(*value),
            ObjectValue::TimeTicks(value) => ObjectView::TimeTicks(*value),
            ObjectValue::Opaque(value) => ObjectView::Opaque(value@),
            ObjectValue::NsapAddress(value) => ObjectView::NsapAddress(value@),
            ObjectValue::Counter64(value) => ObjectView::Counter64(*value),
            ObjectValue::UInteger32(value) => ObjectView::UInteger32(*value),
            ObjectValue::UnknownApplication(value) => ObjectView::UnknownApplication(value@),
        }
    }
}

/// What a variable is bound to.
#[derive(Clone, Debug, PartialEq, Eq)]
pub enum BoundValue {
    Value(ObjectValue),
    Unspecified,
    NoSuchObject,
    NoSuchInstance,
    EndOfMibView,
}

/// A [`BoundValue`] as mathematical values.
pub ghost enum VarBindView {
    Value(ObjectView),
    Unspecified,
    NoSuchObject,
    NoSuchInstance,
    EndOfMibView,
}

impl View for BoundValue {
    type V = VarBindView;

    open spec fn view(&self) -> VarBindView {
        match self {
            BoundValue::Value(value) => VarBindView::Value(value@),
            BoundValue::Unspecified => VarBindView::Unspecified,
            BoundValue::NoSuchObject => VarBindView::NoSuchObject,
            BoundValue::NoSuchInstance => VarBindView::NoSuchInstance,
            BoundValue::EndOfMibView => VarBindView::EndOfMibView,
        }
    }
}

/// A variable binding.
#[derive(Clone, Debug, PartialEq, Eq)]
pub struct Variable {
    pub oid: ObjectId,
    pub val: BoundValue,
}

/// A [`Variable`] as mathematical values.
pub ghost struct VariableView {
    pub oid: OidView,
    pub val: VarBindView,
}

impl View for Variable {
    type V = VariableView;

    open spec fn view(&self) -> VariableView {
        VariableView { oid: self.oid@, val: self.val@ }
    }
}

pub open spec fn variables_view(variables: Seq<Variable>) -> Seq<VariableView> {
    variables.map_values(|variable: Variable| variable@)
}

/// A PDU that is neither an SNMPv1 trap nor a GetBulkRequest.
#[derive(Clone, Debug, PartialEq, Eq)]
pub struct SnmpGenericPdu {
    pub pdu_type: PduType,
    pub var: Vec<Variable>,
}

/// A [`SnmpGenericPdu`] as mathematical values.
pub ghost struct GenericPduView {
    pub pdu_type: PduType,
    pub var: Seq<VariableView>,
}

impl View for SnmpGenericPdu {
    type V = GenericPduView;

    open spec fn view(&self) -> GenericPduView {
        GenericPduView { pdu_type: self.pdu_type, var: variables_view(self.var@) }
    }
}

/// An SNMPv1 trap.
#[derive(Clone, Debug, PartialEq, Eq)]
pub struct SnmpTrapPdu {
    pub enterprise: ObjectId,
    pub agent_addr: NetworkAddress,
    pub specific_trap: u32,
    pub timestamp: u32,
    pub var: Vec<Variable>,
}

/// A [`SnmpTrapPdu`] as mathematical values.
pub ghost struct TrapPduView {
    pub enterprise: OidView,
    pub agent_addr: NetworkAddress,
    pub specific_trap: u32,
    pub timestamp: u32,
    pub var: Seq<VariableView>,
}

impl View for SnmpTrapPdu {
    type V = TrapPduView;

    open spec fn view(&self) -> TrapPduView {
        TrapPduView {
            enterprise: self.enterprise@,
            agent_addr: self.agent_addr,
            specific_trap: self.specific_trap,
            timestamp: self.timestamp,
            var: variables_view(self.var@),
        }
    }
}

/// A protocol data unit.
#[derive(Clone, Debug, PartialEq, Eq)]
pub enum SnmpPdu {
    Generic(SnmpGenericPdu),
    Bulk,
    TrapV1(SnmpTrapPdu),
}

/// A [`SnmpPdu`] as mathematical values.
pub ghost enum PduView {
    Generic(GenericPduView),
    Bulk,
    TrapV1(TrapPduView),
}

impl View for SnmpPdu {
    type V = PduView;

    open spec fn view(&self) -> PduView {
        match self {
            SnmpPdu::Generic(pdu) => PduView::Generic(pdu@),
            SnmpPdu::Bulk => PduView::Bulk,
            SnmpPdu::TrapV1(trap) => PduView::TrapV1(trap@),
        }
    }
}

impl PduView {
    /// The kind of the PDU.
    pub open spec fn pdu_type(self) -> PduType {
        match self {
            PduView::Generic(pdu) => pdu.pdu_type,
            PduView::Bulk => PduType::GetBulkRequest,
            PduView::TrapV1(_) => PduType::TrapV1,
        }
    }
}

impl SnmpPdu {
    /// The kind of the PDU.
    pub fn pdu_type(&self) -> (r: PduType)
        ensures
            r == self@.pdu_type(),
    {
        match self {
            SnmpPdu::Generic(pdu) => pdu.pdu_type,
            SnmpPdu::Bulk => PduType::GetBulkRequest,
            SnmpPdu::TrapV1(_) => PduType::TrapV1,
        }
    }
}

/// An SNMPv1 or SNMPv2c message.
#[derive(Clone, Debug, PartialEq, Eq)]
pub struct Message {
    pub community: String,
    pub pdu: SnmpPdu,
}

/// A [`Message`] as mathematical values.
pub ghost struct MessageView {
    pub community: Seq<char>,
    pub pdu: PduView,
}

impl View for Message {
    type V = MessageView;

    open spec fn view(&self) -> MessageView {
        MessageView { community: self.community@, pdu: self.pdu@ }
    }
}

} // verus!
