//! What contracts say of values, they say of all that the values hold.

use crate::display::ValueSyntax;
use crate::error::ParseError;
use crate::event::{json_tree, LogValue, LogValueView};
use crate::mib::load::{warnings_view, MibWarning};
use crate::mib::parser::{definitions_view, OidElement, RawDefinition, SymbolRef};
use crate::mib::resolver::OidResolution;
use crate::mib::table::MibSymbol;
use crate::model::{
    BoundValue, Message, ObjectId, ObjectValue, SnmpGenericPdu, SnmpPdu, SnmpTrapPdu, UnknownValue,
    Variable,
};
use crate::response::buffered;
use crate::source::{reports_view, SourceAction, SourceEvent, SourceReport};
use crate::text::texts;
use vstd::prelude::*;
use vstd::string::*;

verus! {

/// A text that may be missing is seen as it is.
pub open spec fn is_seen_as(text: Option<String>, seen: Option<Seq<char>>) -> bool {
    match text {
        Some(text) => seen == Some(text@),
        None => seen is None,
    }
}

/// Object identifiers and values of unknown types are seen with all their parts.
pub proof fn parts_are_seen(oid: ObjectId, unknown: UnknownValue)
    ensures
        oid@.bytes == oid.bytes@,
        oid@.text == oid.text@,
        unknown@.class == unknown.class,
        unknown@.constructed == unknown.constructed,
        unknown@.tag == unknown.tag,
        unknown@.bytes == unknown.bytes@,
{
}

/// Values are seen as what they are.
pub proof fn values_are_seen(value: ObjectValue)
    ensures
        match value {
            ObjectValue::Number(number) => value@ is Number && value@->Number_0 == number,
            ObjectValue::String(bytes) => value@ is String && value@->String_0 == bytes@,
            ObjectValue::Object(oid) => value@ is Object && value@->Object_0 == oid@,
            ObjectValue::BitString { unused_bits, data } => value@ is BitString
                && value@->unused_bits == unused_bits && value@->data == data@,
            ObjectValue::Empty => value@ is Empty,
            ObjectValue::UnknownSimple(unknown) => value@ is UnknownSimple
                && value@->UnknownSimple_0 == unknown@,
            ObjectValue::IpAddress(address) => value@ is IpAddress && value@->IpAddress_0
                == address,
            ObjectValue::Counter32(number) => value@ is Counter32 && value@->Counter32_0 == number,
            ObjectValue::Gauge32(number) => value@ is Gauge32 && value@->Gauge32_0 == number,
            ObjectValue::TimeTicks(number) => value@ is TimeTicks && value@->TimeTicks_0 == number,
            ObjectValue::Opaque(bytes) => value@ is Opaque && value@->Opaque_0 == bytes@,
            ObjectValue::NsapAddress(bytes) => value@ is NsapAddress && value@->NsapAddress_0
                == bytes@,
            ObjectValue::Counter64(number) => value@ is Counter64 && value@->Counter64_0 == number,
            ObjectValue::UInteger32(number) => value@ is UInteger32 && value@->UInteger32_0
                == number,
            ObjectValue::UnknownApplication(unknown) => value@ is UnknownApplication
                && value@->UnknownApplication_0 == unknown@,
        },
{
}

/// Variable bindings are seen with their object identifier and what it is bound to.
pub proof fn bindings_are_seen(variable: Variable, bound: BoundValue)
    ensures
        variable@.oid == variable.oid@,
        variable@.val == variable.val@,
        match bound {
            BoundValue::Value(value) => bound@ is Value && bound@->Value_0 == value@,
            BoundValue::Unspecified => bound@ is Unspecified,
            BoundValue::NoSuchObject => bound@ is NoSuchObject,
            BoundValue::NoSuchInstance => bound@ is NoSuchInstance,
            BoundValue::EndOfMibView => bound@ is EndOfMibView,
        },
{
}

/// Messages are seen with their community, their kind and every variable binding, in order.
pub proof fn messages_are_seen(
    message: Message,
    trap: SnmpTrapPdu,
    pdu: SnmpGenericPdu,
    index: int,
)
    ensures
        message@.community == message.community@,
        message@.pdu == message.pdu@,
        match message.pdu {
            SnmpPdu::Generic(inner) => message.pdu@ is Generic && message.pdu@->Generic_0 == inner@,
            SnmpPdu::Bulk => message.pdu@ is Bulk,
            SnmpPdu::TrapV1(inner) => message.pdu@ is TrapV1 && message.pdu@->TrapV1_0 == inner@,
        },
        trap@.enterprise == trap.enterprise@,
        trap@.agent_addr == trap.agent_addr,
        trap@.specific_trap == trap.specific_trap,
        trap@.timestamp == trap.timestamp,
        trap@.var.len() == trap.var@.len(),
        0 <= index < trap.var@.len() ==> trap@.var[index] == trap.var@[index]@,
        pdu@.pdu_type == pdu.pdu_type,
        pdu@.var.len() == pdu.var@.len(),
        0 <= index < pdu.var@.len() ==> pdu@.var[index] == pdu.var@[index]@,
{
}

/// The values of events are seen as what they are, every object of them in order.
pub proof fn log_values_are_seen(value: LogValue, index: int)
    ensures
        match value {
            LogValue::Text(text) => value@ == LogValueView::Text(text@),
            LogValue::Integer(number) => value@ == LogValueView::Integer(number),
            LogValue::Objects(objects) => {
                &&& value@ is Objects
                &&& value@->Objects_0.len() == objects@.len()
                &&& 0 <= index < objects@.len() ==> value@->Objects_0[index] == json_tree(
                    objects@[index],
                )
            },
        },
{
}

/// Definitions and names are seen with all their parts.
pub proof fn definitions_are_seen(
    definition: RawDefinition,
    element: OidElement,
    reference: SymbolRef,
    symbol: MibSymbol,
    resolution: OidResolution,
    index: int,
)
    ensures
        is_seen_as(definition.module, definition@.module),
        definition@.name == definition.name@,
        definition@.prefix_resolves == definition.prefix_resolves,
        definition@.elements.len() == definition.elements@.len(),
        0 <= index < definition.elements@.len() ==> definition@.elements[index]
            == definition.elements@[index]@,
        match element {
            OidElement::Symbol(inner) => element@ is Symbol && element@->Symbol_0 == inner@,
            OidElement::Number(number) => element@ is Number && element@->Number_0 == number,
            OidElement::NamedNumber(name, number) => element@ is NamedNumber
                && element@->NamedNumber_0 == name@ && element@->NamedNumber_1 == number,
        },
        is_seen_as(reference.module, reference@.module),
        reference@.name == reference.name@,
        is_seen_as(symbol.module, symbol@.module),
        symbol@.name == symbol.name@,
        symbol@.prefix_resolves == symbol.prefix_resolves,
        resolution@.name == resolution.name@,
        is_seen_as(resolution.module, resolution@.module),
        resolution@.symbol == resolution.symbol@,
        is_seen_as(resolution.instance, resolution@.instance),
{
}

/// Syntaxes are seen with their base, their labels in order, their hint and their units.
pub proof fn syntaxes_are_seen(syntax: ValueSyntax, index: int)
    ensures
        syntax@.base == syntax.base,
        syntax@.named_numbers.len() == syntax.named_numbers@.len(),
        0 <= index < syntax.named_numbers@.len() ==> syntax@.named_numbers[index] == (
            syntax.named_numbers@[index].0,
            syntax.named_numbers@[index].1@,
        ),
        is_seen_as(syntax.display_hint, syntax@.display_hint),
        is_seen_as(syntax.units, syntax@.units),
{
}

/// Errors are seen as what they are.
pub proof fn errors_are_seen(error: ParseError)
    ensures
        match error {
            ParseError::MalformedMessage(detail) => error@ is MalformedMessage
                && error@->MalformedMessage_0 == detail@,
            ParseError::UnsupportedVersion(detail) => error@ is UnsupportedVersion
                && error@->UnsupportedVersion_0 == detail@,
            ParseError::TrailingData(count) => error@ is TrailingData && error@->TrailingData_0
                == count,
            ParseError::InvalidPduType(kind) => error@ is InvalidPduType
                && error@->InvalidPduType_0 == kind,
            ParseError::InvalidV1Trap(detail) => error@ is InvalidV1Trap
                && error@->InvalidV1Trap_0 == detail@,
            ParseError::InvalidV2cNotification(detail) => error@ is InvalidV2cNotification
                && error@->InvalidV2cNotification_0 == detail@,
            ParseError::InvalidRequestId(detail) => error@ is InvalidRequestId
                && error@->InvalidRequestId_0 == detail@,
        },
{
}

/// Lists are seen whole and in order.
pub proof fn lists_are_seen(
    strings: Seq<String>,
    definitions: Seq<RawDefinition>,
    reports: Seq<SourceReport>,
    warnings: Seq<MibWarning>,
    index: int,
)
    ensures
        texts(strings).len() == strings.len(),
        0 <= index < strings.len() ==> texts(strings)[index] == strings[index]@,
        definitions_view(definitions).len() == definitions.len(),
        0 <= index < definitions.len() ==> definitions_view(definitions)[index]
            == definitions[index]@,
        reports_view(reports).len() == reports.len(),
        0 <= index < reports.len() ==> reports_view(reports)[index] == reports[index]@,
        warnings_view(warnings).len() == warnings.len(),
        0 <= index < warnings.len() ==> warnings_view(warnings)[index] == warnings[index]@,
{
}

/// Reports and warnings are seen as what they are.
pub proof fn reports_are_seen(report: SourceReport, warning: MibWarning)
    ensures
        match report {
            SourceReport::BytesReceived(count) => report@ is BytesReceived
                && report@->BytesReceived_0 == count,
            SourceReport::ReceiveError(error) => report@ is ReceiveError
                && report@->ReceiveError_0 == error@,
            SourceReport::EventsReceived(count) => report@ is EventsReceived
                && report@->EventsReceived_0 == count,
            SourceReport::ParseError(error) => report@ is ParseError && report@->ParseError_0.error
                == error.error@ && report@->ParseError_0.error_code == error.error_code@,
            SourceReport::StreamClosed(count) => report@ is StreamClosed
                && report@->StreamClosed_0 == count,
            SourceReport::BytesSent(count) => report@ is BytesSent && report@->BytesSent_0 == count,
            SourceReport::SendError(error) => report@ is SendError && report@->SendError_0
                == error@,
        },
        match warning {
            MibWarning::NoDefinitions { path } => warning@ is NoDefinitions
                && warning@->NoDefinitions_path == path@,
            MibWarning::Unreadable { path, error } => warning@ is Unreadable
                && warning@->Unreadable_path == path@ && warning@->error == error@,
            MibWarning::Unresolved { symbol, affected_definitions, sample } => warning@
                is Unresolved && warning@->symbol == symbol@ && warning@->affected_definitions
                == affected_definitions && warning@->sample == texts(sample@),
        },
{
}

/// Events and actions of the source are seen as what they are.
pub proof fn actions_are_seen(event: SourceEvent, action: SourceAction)
    ensures
        match event {
            SourceEvent::Received { data, peer } => event@ is Received && event@->Received_data
                == buffered(data) && event@->Received_peer == peer@,
            SourceEvent::ReceiveFailed(error) => event@ is ReceiveFailed
                && event@->ReceiveFailed_0 == error@,
            SourceEvent::Accepted => event@ is Accepted,
            SourceEvent::Closed => event@ is Closed,
            SourceEvent::Sent(count) => event@ is Sent && event@->Sent_0 == count,
            SourceEvent::SendFailed(error) => event@ is SendFailed && event@->SendFailed_0
                == error@,
            SourceEvent::Shutdown => event@ is Shutdown,
        },
        match action {
            SourceAction::Receive => action@ is Receive,
            SourceAction::Forward { events, peer } => action@ is Forward && action@->events
                == events@ && action@->Forward_peer == peer@,
            SourceAction::Respond { response, peer } => action@ is Respond && action@->response
                == buffered(response) && action@->Respond_peer == peer@,
            SourceAction::Stop => action@ is Stop,
        },
{
}

} // verus!
