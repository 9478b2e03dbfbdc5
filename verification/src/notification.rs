//! SNMP notifications as log events.

use crate::display::{dotted_address, format_network_address};
use crate::error::{ParseError, ParseErrorView, PduType};
use crate::event::{batch_of, text_objects, EventBatch, LogEvent, LogValue, LogValueView};
use crate::mib::resolver::{resolve_text, MibResolver, ResolutionView};
use crate::mib::table::SymbolView;
use crate::model::{
    BoundValue, GenericPduView, Message, MessageView, ObjectValue, ObjectView, PduView,
    SnmpGenericPdu, SnmpPdu, TrapPduView, VarBindView,
};
use crate::raw::{
    ensure_consumed, negative_request_id_patch, patch_negative_v2c_request_id, raw_v1_generic_trap,
    raw_v2c_request_id, v1_generic_trap, v2c_request_id,
};
use crate::response::{
    buffer_octets, buffered, build_inform_response, inform_response, opt_buffered,
};
use crate::text::same_text;
use crate::varbind::{all_varbind_fields, format_varbinds};
use crate::wire::{is_v3, parse_snmp_v1, parse_snmp_v2c, snmp_v1, snmp_v2c, snmp_v3};
use vstd::prelude::*;
use vstd::string::*;
use vstd::utf8::*;

verus! {

/// The events of a notification, and the response that it is owed.
#[derive(Debug)]
pub struct ParsedSnmpNotification {
    pub events: EventBatch,
    pub response: Option<bytes::Bytes>,
}

/// A [`ParsedSnmpNotification`] as mathematical values.
pub ghost struct NotificationView {
    pub events: Seq<Map<Seq<char>, LogValueView>>,
    pub response: Option<Seq<u8>>,
}

impl View for ParsedSnmpNotification {
    type V = NotificationView;

    open spec fn view(&self) -> NotificationView {
        NotificationView { events: self.events@, response: opt_buffered(self.response) }
    }
}

/// The outcome of a parse as mathematical values.
pub open spec fn outcome(result: Result<ParsedSnmpNotification, ParseError>) -> Result<
    NotificationView,
    ParseErrorView,
> {
    match result {
        Ok(notification) => Ok(notification@),
        Err(error) => Err(error@),
    }
}

/// The object identifier of `sysUpTime.0`.
pub open spec fn sys_up_time() -> Seq<char> {
    "1.3.6.1.2.1.1.3.0"@
}

/// The object identifier of `snmpTrapOID.0`.
pub open spec fn snmp_trap_oid() -> Seq<char> {
    "1.3.6.1.6.3.1.1.4.1.0"@
}

/// The name of a generic trap.
pub open spec fn generic_trap_name(value: u8) -> Seq<char> {
    if value == 0 {
        "coldStart"@
    } else if value == 1 {
        "warmStart"@
    } else if value == 2 {
        "linkDown"@
    } else if value == 3 {
        "linkUp"@
    } else if value == 4 {
        "authenticationFailure"@
    } else if value == 5 {
        "egpNeighborLoss"@
    } else if value == 6 {
        "enterpriseSpecific"@
    } else {
        "unknown"@
    }
}

/// The name of a generic trap.
pub fn trap_type_name(value: u8) -> (r: &'static str)
    ensures
        r@ == generic_trap_name(value),
{
    match value {
        0 => "coldStart",
        1 => "warmStart",
        2 => "linkDown",
        3 => "linkUp",
        4 => "authenticationFailure",
        5 => "egpNeighborLoss",
        6 => "enterpriseSpecific",
        _ => "unknown",
    }
}

/// The event with what is known of an object identifier, in fields whose names start with
/// `prefix`.
pub open spec fn event_with_resolution(
    event: Map<Seq<char>, LogValueView>,
    prefix: Seq<char>,
    resolution: ResolutionView,
) -> Map<Seq<char>, LogValueView> {
    let named = event.insert(prefix + "_name"@, LogValueView::Text(resolution.name));
    let placed = match resolution.module {
        Some(module) => named.insert(prefix + "_module"@, LogValueView::Text(module)),
        None => named,
    };
    let known = placed.insert(prefix + "_symbol"@, LogValueView::Text(resolution.symbol));
    match resolution.instance {
        Some(instance) => known.insert(prefix + "_instance"@, LogValueView::Text(instance)),
        None => known,
    }
}

/// The event with what is known of an object identifier, if anything is.
pub open spec fn event_with_known_oid(
    event: Map<Seq<char>, LogValueView>,
    prefix: Seq<char>,
    oid: Seq<char>,
    names: Map<Seq<u32>, SymbolView>,
) -> Map<Seq<char>, LogValueView> {
    match resolve_text(names, oid) {
        Some(resolution) => event_with_resolution(event, prefix, resolution),
        None => event,
    }
}

/// Adds what is known of an object identifier, if anything is.
pub fn insert_oid_resolution(
    log: &mut LogEvent,
    prefix: &str,
    oid: &str,
    mib_resolver: &MibResolver,
)
    ensures
        final(log)@ == event_with_known_oid(old(log)@, prefix@, oid@, mib_resolver@),
{
    if let Some(resolution) = mib_resolver.resolve(oid) {
        log.insert(prefix.to_owned().concat("_name").as_str(), LogValue::Text(resolution.name));
        if let Some(module) = resolution.module {
            log.insert(prefix.to_owned().concat("_module").as_str(), LogValue::Text(module));
        }
        log.insert(
            prefix.to_owned().concat("_symbol").as_str(),
            LogValue::Text(resolution.symbol),
        );
        if let Some(instance) = resolution.instance {
            log.insert(prefix.to_owned().concat("_instance").as_str(), LogValue::Text(instance));
        }
    }
}

/// The event of an SNMPv1 trap.
pub open spec fn v1_event(
    community: Seq<char>,
    trap: TrapPduView,
    generic_trap: u8,
    source_addr: Seq<char>,
    names: Map<Seq<u32>, SymbolView>,
) -> Map<Seq<char>, LogValueView> {
    let enterprise = trap.enterprise.text;
    let start = Map::<Seq<char>, LogValueView>::empty().insert(
        "snmp_version"@,
        LogValueView::Text("1"@),
    ).insert("pdu_type"@, LogValueView::Text("trap_v1"@)).insert(
        "source_address"@,
        LogValueView::Text(source_addr),
    ).insert("community"@, LogValueView::Text(community)).insert(
        "enterprise_oid"@,
        LogValueView::Text(enterprise),
    );
    event_with_known_oid(start, "enterprise_oid"@, enterprise, names).insert(
        "agent_address"@,
        LogValueView::Text(dotted_address(trap.agent_addr)),
    ).insert("generic_trap"@, LogValueView::Integer(generic_trap as i64)).insert(
        "generic_trap_name"@,
        LogValueView::Text(generic_trap_name(generic_trap)),
    ).insert("specific_trap"@, LogValueView::Integer(trap.specific_trap as i64)).insert(
        "uptime"@,
        LogValueView::Integer(trap.timestamp as i64),
    ).insert("varbinds"@, LogValueView::Objects(text_objects(all_varbind_fields(trap.var, names)))).insert(
        "message"@,
        LogValueView::Text(
            "SNMPv1 trap from "@ + source_addr + " ("@ + enterprise + "): "@ + generic_trap_name(
                generic_trap,
            ),
        ),
    )
}

/// What an SNMPv1 message gives: the event of a trap whose generic-trap, read from the octets, is
/// one that RFC 1157 defines. A trap is owed no response.
pub open spec fn v1_notification(
    message: MessageView,
    data: Seq<u8>,
    source_addr: Seq<char>,
    names: Map<Seq<u32>, SymbolView>,
) -> Result<NotificationView, ParseErrorView> {
    match message.pdu {
        PduView::TrapV1(trap) => match v1_generic_trap(data) {
            Err(error) => Err(error),
            Ok(generic_trap) => if 0 <= generic_trap <= 6 {
                Ok(
                    NotificationView {
                        events: seq![
                            v1_event(
                                message.community,
                                trap,
                                generic_trap as u8,
                                source_addr,
                                names,
                            ),
                        ],
                        response: None,
                    },
                )
            } else {
                Err(
                    ParseErrorView::InvalidV1Trap(
                        "generic-trap must be in the RFC 1157 range 0..=6"@,
                    ),
                )
            },
        },
        _ => Err(ParseErrorView::InvalidPduType(message.pdu.pdu_type())),
    }
}

/// Makes an SNMPv1 trap an event.
pub fn parse_v1_trap(
    message: Message,
    data: &bytes::Bytes,
    source_addr: &str,
    mib_resolver: &MibResolver,
) -> (r: Result<ParsedSnmpNotification, ParseError>)
    ensures
        outcome(r) == v1_notification(message@, buffered(*data), source_addr@, mib_resolver@),
{
    let Message { community, pdu } = message;
    let trap = match pdu {
        SnmpPdu::TrapV1(trap) => trap,
        other => {
            return Err(ParseError::InvalidPduType(other.pdu_type()));
        },
    };
    let generic_trap: i64 = match raw_v1_generic_trap(buffer_octets(data)) {
        Ok(generic_trap) => generic_trap,
        Err(error) => {
            return Err(error);
        },
    };
    if generic_trap < 0 || generic_trap > 6 {
        return Err(
            ParseError::InvalidV1Trap("generic-trap must be in the RFC 1157 range 0..=6"),
        );
    }
    let generic_trap: u8 = generic_trap as u8;
    let enterprise = trap.enterprise.text.as_str();
    let mut log = LogEvent::new();
    log.insert("snmp_version", LogValue::Text("1".to_owned()));
    log.insert("pdu_type", LogValue::Text("trap_v1".to_owned()));
    log.insert("source_address", LogValue::Text(source_addr.to_owned()));
    log.insert("community", LogValue::Text(community));
    log.insert("enterprise_oid", LogValue::Text(enterprise.to_owned()));
    insert_oid_resolution(&mut log, "enterprise_oid", enterprise, mib_resolver);
    log.insert("agent_address", LogValue::Text(format_network_address(trap.agent_addr)));
    log.insert("generic_trap", LogValue::Integer(generic_trap as i64));
    log.insert("generic_trap_name", LogValue::Text(trap_type_name(generic_trap).to_owned()));
    log.insert("specific_trap", LogValue::Integer(trap.specific_trap as i64));
    log.insert("uptime", LogValue::Integer(trap.timestamp as i64));
    log.insert("varbinds", LogValue::Objects(format_varbinds(trap.var.as_slice(), mib_resolver)));
    log.insert(
        "message",
        LogValue::Text(
            "SNMPv1 trap from ".to_owned().concat(source_addr).concat(" (").concat(
                enterprise,
            ).concat("): ").concat(trap_type_name(generic_trap)),
        ),
    );
    Ok(ParsedSnmpNotification { events: batch_of(log), response: None })
}

/// The uptime and the notification identifier that an SNMPv2 notification has to start with, in the
/// order of RFC 3416.
pub open spec fn notification_varbinds(pdu: GenericPduView) -> Result<
    (i64, Seq<char>),
    ParseErrorView,
> {
    if pdu.var.len() == 0 {
        Err(
            ParseErrorView::InvalidV2cNotification(
                "missing sysUpTime.0 and snmpTrapOID.0 varbinds"@,
            ),
        )
    } else if pdu.var[0].oid.text != sys_up_time() {
        Err(ParseErrorView::InvalidV2cNotification("first varbind must be sysUpTime.0"@))
    } else {
        match pdu.var[0].val {
            VarBindView::Value(ObjectView::TimeTicks(uptime)) => if pdu.var.len() == 1 {
                Err(ParseErrorView::InvalidV2cNotification("missing snmpTrapOID.0 varbind"@))
            } else if pdu.var[1].oid.text != snmp_trap_oid() {
                Err(ParseErrorView::InvalidV2cNotification("second varbind must be snmpTrapOID.0"@))
            } else {
                match pdu.var[1].val {
                    VarBindView::Value(ObjectView::Object(trap_oid)) => Ok(
                        (uptime as i64, trap_oid.text),
                    ),
                    _ => Err(
                        ParseErrorView::InvalidV2cNotification(
                            "snmpTrapOID.0 varbind must contain an ObjectIdentifier"@,
                        ),
                    ),
                }
            },
            _ => Err(
                ParseErrorView::InvalidV2cNotification(
                    "sysUpTime.0 varbind must contain TimeTicks"@,
                ),
            ),
        }
    }
}

/// Reads the uptime and the notification identifier that an SNMPv2 notification has to start with.
pub fn validate_v2c_notification_varbinds(pdu: &SnmpGenericPdu) -> (r: Result<
    (i64, String),
    ParseError,
>)
    ensures
        match r {
            Ok((uptime, trap_oid)) => notification_varbinds(pdu@) == Ok::<_, ParseErrorView>(
                (uptime, trap_oid@),
            ),
            Err(error) => notification_varbinds(pdu@) == Err::<(i64, Seq<char>), _>(error@),
        },
{
    if pdu.var.len() == 0 {
        return Err(
            ParseError::InvalidV2cNotification("missing sysUpTime.0 and snmpTrapOID.0 varbinds"),
        );
    }
    let first = &pdu.var[0];
    assert(pdu@.var[0] == first@);
    if !same_text(first.oid.text.as_str(), "1.3.6.1.2.1.1.3.0") {
        return Err(ParseError::InvalidV2cNotification("first varbind must be sysUpTime.0"));
    }
    let uptime: u32 = match &first.val {
        BoundValue::Value(ObjectValue::TimeTicks(uptime)) => *uptime,
        _ => {
            return Err(
                ParseError::InvalidV2cNotification("sysUpTime.0 varbind must contain TimeTicks"),
            );
        },
    };
    if pdu.var.len() == 1 {
        return Err(ParseError::InvalidV2cNotification("missing snmpTrapOID.0 varbind"));
    }
    let second = &pdu.var[1];
    assert(pdu@.var[1] == second@);
    if !same_text(second.oid.text.as_str(), "1.3.6.1.6.3.1.1.4.1.0") {
        return Err(ParseError::InvalidV2cNotification("second varbind must be snmpTrapOID.0"));
    }
    match &second.val {
        BoundValue::Value(ObjectValue::Object(trap_oid)) => Ok(
            (uptime as i64, trap_oid.text.clone()),
        ),
        _ => Err(
            ParseError::InvalidV2cNotification(
                "snmpTrapOID.0 varbind must contain an ObjectIdentifier",
            ),
        ),
    }
}

/// The event of an SNMPv2c trap or inform.
pub open spec fn v2c_event(
    community: Seq<char>,
    pdu: GenericPduView,
    request_id: i64,
    uptime: i64,
    trap_oid: Seq<char>,
    source_addr: Seq<char>,
    names: Map<Seq<u32>, SymbolView>,
) -> Map<Seq<char>, LogValueView> {
    let inform = pdu.pdu_type == PduType::InformRequest;
    let start = Map::<Seq<char>, LogValueView>::empty().insert(
        "snmp_version"@,
        LogValueView::Text("2c"@),
    ).insert(
        "pdu_type"@,
        LogValueView::Text(
            if inform {
                "inform_request"@
            } else {
                "trap_v2"@
            },
        ),
    ).insert("source_address"@, LogValueView::Text(source_addr)).insert(
        "community"@,
        LogValueView::Text(community),
    ).insert("request_id"@, LogValueView::Integer(request_id)).insert(
        "uptime"@,
        LogValueView::Integer(uptime),
    ).insert("trap_oid"@, LogValueView::Text(trap_oid));
    event_with_known_oid(start, "trap_oid"@, trap_oid, names).insert(
        "varbinds"@,
        LogValueView::Objects(text_objects(all_varbind_fields(pdu.var, names))),
    ).insert(
        "message"@,
        LogValueView::Text(
            "SNMPv2c "@ + (if inform {
                "inform"@
            } else {
                "trap"@
            }) + " from "@ + source_addr + ": "@ + trap_oid,
        ),
    )
}

/// What an SNMPv2c message gives: the event of a trap or inform that starts with the variable
/// bindings of RFC 3416. An inform is owed a response.
pub open spec fn v2c_notification(
    message: MessageView,
    request_id: i64,
    source_addr: Seq<char>,
    names: Map<Seq<u32>, SymbolView>,
) -> Result<NotificationView, ParseErrorView> {
    if message.pdu matches PduView::Generic(pdu) && (pdu.pdu_type == PduType::TrapV2 || pdu.pdu_type
        == PduType::InformRequest) {
        let pdu = message.pdu->Generic_0;
        match notification_varbinds(pdu) {
            Err(error) => Err(error),
            Ok((uptime, trap_oid)) => Ok(
                NotificationView {
                    events: seq![
                        v2c_event(
                            message.community,
                            pdu,
                            request_id,
                            uptime,
                            trap_oid,
                            source_addr,
                            names,
                        ),
                    ],
                    response: if pdu.pdu_type == PduType::InformRequest {
                        inform_response(
                            encode_utf8(message.community),
                            request_id as int,
                            pdu.var,
                        )
                    } else {
                        None
                    },
                },
            ),
        }
    } else {
        Err(ParseErrorView::InvalidPduType(message.pdu.pdu_type()))
    }
}

/// Makes an SNMPv2c trap or inform an event, and builds the response to an inform.
pub fn parse_v2c_notification(
    message: Message,
    request_id: i64,
    source_addr: &str,
    mib_resolver: &MibResolver,
) -> (r: Result<ParsedSnmpNotification, ParseError>)
    ensures
        outcome(r) == v2c_notification(message@, request_id, source_addr@, mib_resolver@),
{
    let Message { community, pdu } = message;
    let pdu = match pdu {
        SnmpPdu::Generic(pdu) => pdu,
        other => {
            return Err(ParseError::InvalidPduType(other.pdu_type()));
        },
    };
    if pdu.pdu_type != PduType::TrapV2 && pdu.pdu_type != PduType::InformRequest {
        return Err(ParseError::InvalidPduType(pdu.pdu_type));
    }
    let inform: bool = pdu.pdu_type == PduType::InformRequest;
    let (uptime, trap_oid) = match validate_v2c_notification_varbinds(&pdu) {
        Ok(found) => found,
        Err(error) => {
            return Err(error);
        },
    };
    let response: Option<bytes::Bytes> = if inform {
        build_inform_response(community.as_str().as_bytes(), request_id, &pdu)
    } else {
        None
    };
    let mut log = LogEvent::new();
    log.insert("snmp_version", LogValue::Text("2c".to_owned()));
    log.insert(
        "pdu_type",
        LogValue::Text(
            if inform {
                "inform_request".to_owned()
            } else {
                "trap_v2".to_owned()
            },
        ),
    );
    log.insert("source_address", LogValue::Text(source_addr.to_owned()));
    log.insert("community", LogValue::Text(community));
    log.insert("request_id", LogValue::Integer(request_id));
    log.insert("uptime", LogValue::Integer(uptime));
    log.insert("trap_oid", LogValue::Text(trap_oid.clone()));
    insert_oid_resolution(&mut log, "trap_oid", trap_oid.as_str(), mib_resolver);
    log.insert("varbinds", LogValue::Objects(format_varbinds(pdu.var.as_slice(), mib_resolver)));
    log.insert(
        "message",
        LogValue::Text(
            "SNMPv2c ".to_owned().concat(
                if inform {
                    "inform"
                } else {
                    "trap"
                },
            ).concat(" from ").concat(source_addr).concat(": ").concat(trap_oid.as_str()),
        ),
    );
    Ok(ParsedSnmpNotification { events: batch_of(log), response })
}

/// What a message found by the SNMPv1 parser gives, with the bytes behind it.
pub open spec fn v1_outcome(
    remaining: Seq<u8>,
    message: MessageView,
    data: Seq<u8>,
    source_addr: Seq<char>,
    names: Map<Seq<u32>, SymbolView>,
) -> Result<NotificationView, ParseErrorView> {
    if remaining.len() > 0 {
        Err(ParseErrorView::TrailingData(remaining.len()))
    } else {
        v1_notification(message, data, source_addr, names)
    }
}

/// What a message found by the SNMPv2c parser gives, with the bytes behind it and the request-id,
/// if that could be read.
pub open spec fn v2c_outcome(
    remaining: Seq<u8>,
    message: MessageView,
    request_id: Result<i64, ParseErrorView>,
    source_addr: Seq<char>,
    names: Map<Seq<u32>, SymbolView>,
) -> Result<NotificationView, ParseErrorView> {
    if remaining.len() > 0 {
        Err(ParseErrorView::TrailingData(remaining.len()))
    } else {
        match request_id {
            Err(error) => Err(error),
            Ok(request_id) => v2c_notification(message, request_id, source_addr, names),
        }
    }
}

/// The error for bytes that are neither an SNMPv1 nor an SNMPv2c message.
pub open spec fn unparsed(version_3: bool) -> ParseErrorView {
    if version_3 {
        ParseErrorView::UnsupportedVersion(
            "SNMPv3 trap parsing is not supported because RFC 3414 authentication and timeliness checks, and RFC 3826 AES privacy handling, are not implemented"@,
        )
    } else {
        ParseErrorView::MalformedMessage(
            "could not parse as SNMPv1 trap or SNMPv2c notification"@,
        )
    }
}

/// What bytes give, by what the parsers find in them: the SNMPv1 parser, the SNMPv2c parser, the
/// SNMPv2c parser in the bytes with a negative request-id zeroed, and the SNMPv3 parser.
pub open spec fn notification_by(
    data: Seq<u8>,
    v1: Option<(Seq<u8>, MessageView)>,
    v2c: Option<(Seq<u8>, MessageView)>,
    patched: Option<(Seq<u8>, MessageView)>,
    version_3: bool,
    source_addr: Seq<char>,
    names: Map<Seq<u32>, SymbolView>,
) -> Result<NotificationView, ParseErrorView> {
    match (v1, v2c) {
        (Some((remaining, message)), _) => v1_outcome(
            remaining,
            message,
            data,
            source_addr,
            names,
        ),
        (None, Some((remaining, message))) => v2c_outcome(
            remaining,
            message,
            v2c_request_id(data),
            source_addr,
            names,
        ),
        (None, None) => match negative_request_id_patch(data) {
            Err(error) => Err(error),
            Ok(patch) => match (patch, patched) {
                (Some((_, request_id)), Some((remaining, message))) => v2c_outcome(
                    remaining,
                    message,
                    Ok(request_id),
                    source_addr,
                    names,
                ),
                _ => Err(unparsed(version_3)),
            },
        },
    }
}

/// What the SNMPv2c parser finds in the bytes with a negative request-id zeroed.
pub open spec fn patched_v2c(data: Seq<u8>) -> Option<(Seq<u8>, MessageView)> {
    match negative_request_id_patch(data) {
        Ok(Some((patched, _))) => snmp_v2c(patched),
        _ => None,
    }
}

/// Goes on with a message that the SNMPv1 parser found.
pub fn finish_v1(
    remaining: &[u8],
    message: Message,
    data: &bytes::Bytes,
    source_addr: &str,
    mib_resolver: &MibResolver,
) -> (r: Result<ParsedSnmpNotification, ParseError>)
    ensures
        outcome(r) == v1_outcome(
            remaining@,
            message@,
            buffered(*data),
            source_addr@,
            mib_resolver@,
        ),
{
    match ensure_consumed(remaining) {
        Ok(_) => parse_v1_trap(message, data, source_addr, mib_resolver),
        Err(error) => Err(error),
    }
}

/// Goes on with a message that the SNMPv2c parser found.
pub fn finish_v2c(
    remaining: &[u8],
    message: Message,
    request_id: Result<i64, ParseError>,
    source_addr: &str,
    mib_resolver: &MibResolver,
) -> (r: Result<ParsedSnmpNotification, ParseError>)
    ensures
        outcome(r) == v2c_outcome(
            remaining@,
            message@,
            crate::error::viewed(request_id),
            source_addr@,
            mib_resolver@,
        ),
{
    match ensure_consumed(remaining) {
        Ok(_) => match request_id {
            Ok(request_id) => parse_v2c_notification(
                message,
                request_id,
                source_addr,
                mib_resolver,
            ),
            Err(error) => Err(error),
        },
        Err(error) => Err(error),
    }
}

/// The error for bytes that are neither an SNMPv1 nor an SNMPv2c message.
pub fn unparsed_error(version_3: bool) -> (r: ParseError)
    ensures
        r@ == unparsed(version_3),
{
    if version_3 {
        ParseError::UnsupportedVersion(
            "SNMPv3 trap parsing is not supported because RFC 3414 authentication and timeliness checks, and RFC 3826 AES privacy handling, are not implemented",
        )
    } else {
        ParseError::MalformedMessage(
            "could not parse as SNMPv1 trap or SNMPv2c notification".to_owned(),
        )
    }
}

/// Parses an SNMPv1 trap, or an SNMPv2c trap or inform.
pub fn parse_snmp_trap(data: &bytes::Bytes, source_addr: &str, mib_resolver: &MibResolver) -> (r:
    Result<ParsedSnmpNotification, ParseError>)
    ensures
        outcome(r) == notification_by(
            buffered(*data),
            snmp_v1(buffered(*data)),
            snmp_v2c(buffered(*data)),
            patched_v2c(buffered(*data)),
            snmp_v3(buffered(*data)),
            source_addr@,
            mib_resolver@,
        ),
{
    let octets = buffer_octets(data);
    if let Some((remaining, message)) = parse_snmp_v1(octets) {
        return finish_v1(remaining, message, data, source_addr, mib_resolver);
    }
    if let Some((remaining, message)) = parse_snmp_v2c(octets) {
        return finish_v2c(
            remaining,
            message,
            raw_v2c_request_id(octets),
            source_addr,
            mib_resolver,
        );
    }
    match patch_negative_v2c_request_id(octets) {
        Err(error) => {
            return Err(error);
        },
        Ok(None) => {},
        Ok(Some((patched, request_id))) => {
            if let Some((remaining, message)) = parse_snmp_v2c(patched.as_slice()) {
                return finish_v2c(remaining, message, Ok(request_id), source_addr, mib_resolver);
            }
        },
    }
    Err(unparsed_error(is_v3(octets)))
}

} // verus!
