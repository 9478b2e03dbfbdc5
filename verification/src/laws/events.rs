//! What events tell of their notifications.

use crate::error::{ParseErrorView, PduType};
use crate::event::LogValueView;
use crate::laws::forms::addresses_read_back;
use crate::laws::lemma_field_names;
use crate::mib::resolver::{numeric_oid, resolve_text, ResolutionView};
use crate::mib::table::SymbolView;
use crate::model::{
    GenericPduView, MessageView, NetworkAddress, ObjectView, PduView, TrapPduView, VarBindView,
    VariableView,
};
use crate::notification::{
    notification_by, patched_v2c, v1_event, v1_notification, v2c_event, v2c_notification,
    NotificationView,
};
use crate::raw::{message_fields, negative_request_id_patch, v1_generic_trap, v2c_request_id};
use crate::source::{parsed_event, SourceEventView};
use crate::tree::Tree;
use crate::varbind::{value_form, varbind_fields};
use crate::wire::{snmp_v1, snmp_v2c, snmp_v3};
use vstd::prelude::*;
use vstd::string::*;

verus! {

proof fn lemma_names_differ()
    ensures
        "agent_address"@ != "specific_trap"@,
        "enterprise_oid_module"@ != "enterprise_oid_symbol"@,
        "oid_module"@ != "oid_symbol"@,
        "pdu_type"@ != "trap_oid"@,
        "pdu_type"@ != "varbinds"@,
        "snmp_version"@ != "generic_trap"@,
        "source_address"@ != "enterprise_oid"@,
        "trap_oid"@ != "varbinds"@,
        "trap_oid_module"@ != "trap_oid_symbol"@,
        "value_oid_module"@ != "value_oid_symbol"@,
{
    reveal_strlit("agent_address");
    reveal_strlit("enterprise_oid");
    reveal_strlit("enterprise_oid_module");
    reveal_strlit("enterprise_oid_symbol");
    reveal_strlit("generic_trap");
    reveal_strlit("oid_module");
    reveal_strlit("oid_symbol");
    reveal_strlit("pdu_type");
    reveal_strlit("snmp_version");
    reveal_strlit("source_address");
    reveal_strlit("specific_trap");
    reveal_strlit("trap_oid");
    reveal_strlit("trap_oid_module");
    reveal_strlit("trap_oid_symbol");
    reveal_strlit("value_oid_module");
    reveal_strlit("value_oid_symbol");
    reveal_strlit("varbinds");
    assert("agent_address"@[0] != "specific_trap"@[0]);
    assert("enterprise_oid_module"@[15] != "enterprise_oid_symbol"@[15]);
    assert("oid_module"@[4] != "oid_symbol"@[4]);
    assert("pdu_type"@[0] != "trap_oid"@[0]);
    assert("pdu_type"@[0] != "varbinds"@[0]);
    assert("snmp_version"@[0] != "generic_trap"@[0]);
    assert("source_address"@[0] != "enterprise_oid"@[0]);
    assert("trap_oid"@[0] != "varbinds"@[0]);
    assert("trap_oid_module"@[9] != "trap_oid_symbol"@[9]);
    assert("value_oid_module"@[10] != "value_oid_symbol"@[10]);
}

/// The fields tell what is known of an object identifier, and nothing where nothing is known.
pub open spec fn tells_known<V>(
    fields: Map<Seq<char>, V>,
    text: spec_fn(Seq<char>) -> V,
    name: Seq<char>,
    module: Seq<char>,
    symbol: Seq<char>,
    instance: Seq<char>,
    known: Option<ResolutionView>,
) -> bool {
    match known {
        Some(known) => {
            &&& fields.contains_key(name) && fields[name] == text(known.name)
            &&& fields.contains_key(symbol) && fields[symbol] == text(known.symbol)
            &&& fields.contains_key(module) == (known.module is Some)
            &&& known.module matches Some(found) ==> fields[module] == text(found)
            &&& fields.contains_key(instance) == (known.instance is Some)
            &&& known.instance matches Some(found) ==> fields[instance] == text(found)
        },
        None => {
            &&& !fields.contains_key(name)
            &&& !fields.contains_key(symbol)
            &&& !fields.contains_key(module)
            &&& !fields.contains_key(instance)
        },
    }
}

/// The members show a variable binding: its identifier, the type and the text of its value, and what
/// is known of the identifier, and of a value that is one.
pub open spec fn shows_variable(
    members: Map<Seq<char>, Tree>,
    variable: VariableView,
    names: Map<Seq<u32>, SymbolView>,
) -> bool {
    let text = |text: Seq<char>| Tree::Text(text);
    &&& members.contains_key("oid"@) && members["oid"@] == Tree::Text(variable.oid.text)
    &&& members.contains_key("type"@) && members["type"@] == Tree::Text(
        value_form(variable.val).value_type,
    )
    &&& members.contains_key("value"@) && members["value"@] == Tree::Text(
        value_form(variable.val).value,
    )
    &&& members.contains_key("value_bytes_hex"@) == (value_form(variable.val).value_bytes_hex
        is Some)
    &&& value_form(variable.val).value_bytes_hex matches Some(digits)
        ==> members["value_bytes_hex"@] == Tree::Text(digits)
    &&& tells_known(
        members,
        text,
        "oid_name"@,
        "oid_module"@,
        "oid_symbol"@,
        "oid_instance"@,
        resolve_text(names, variable.oid.text),
    )
    &&& tells_known(
        members,
        text,
        "value_oid_name"@,
        "value_oid_module"@,
        "value_oid_symbol"@,
        "value_oid_instance"@,
        match variable.val {
            VarBindView::Value(ObjectView::Object(oid)) => resolve_text(names, oid.text),
            _ => None,
        },
    )
}

/// The value lists the variable bindings, one for one and in order.
pub open spec fn shows_variables(
    value: LogValueView,
    variables: Seq<VariableView>,
    names: Map<Seq<u32>, SymbolView>,
) -> bool {
    &&& value is Objects
    &&& value->Objects_0.len() == variables.len()
    &&& forall|i: int|
        0 <= i < variables.len() ==> (#[trigger] value->Objects_0[i]) is Object && shows_variable(
            value->Objects_0[i]->Object_0,
            variables[i],
            names,
        )
}

/// Each variable binding is shown by an object of its own fields.
pub proof fn variables_are_shown(variable: VariableView, names: Map<Seq<u32>, SymbolView>)
    ensures
        shows_variable(
            varbind_fields(variable, names).map_values(|text: Seq<char>| Tree::Text(text)),
            variable,
            names,
        ),
{
    lemma_field_names();
    lemma_names_differ();
}

/// The event has the field with the value.
pub open spec fn has_field(
    event: Map<Seq<char>, LogValueView>,
    name: Seq<char>,
    value: LogValueView,
) -> bool {
    event.contains_key(name) && event[name] == value
}

/// The text of a generic trap that RFC 1157 defines.
pub open spec fn names_generic_trap(text: Seq<char>, number: int) -> bool {
    &&& number == 0 ==> text == "coldStart"@
    &&& number == 1 ==> text == "warmStart"@
    &&& number == 2 ==> text == "linkDown"@
    &&& number == 3 ==> text == "linkUp"@
    &&& number == 4 ==> text == "authenticationFailure"@
    &&& number == 5 ==> text == "egpNeighborLoss"@
    &&& number == 6 ==> text == "enterpriseSpecific"@
}

/// The event shows an SNMPv1 trap: every part of it in a field of its own.
pub open spec fn shows_v1_trap(
    event: Map<Seq<char>, LogValueView>,
    community: Seq<char>,
    trap: TrapPduView,
    generic_trap: int,
    source_addr: Seq<char>,
    names: Map<Seq<u32>, SymbolView>,
) -> bool {
    &&& has_field(event, "snmp_version"@, LogValueView::Text("1"@))
    &&& has_field(event, "pdu_type"@, LogValueView::Text("trap_v1"@))
    &&& has_field(event, "source_address"@, LogValueView::Text(source_addr))
    &&& has_field(event, "community"@, LogValueView::Text(community))
    &&& has_field(event, "enterprise_oid"@, LogValueView::Text(trap.enterprise.text))
    &&& tells_known(
        event,
        |text: Seq<char>| LogValueView::Text(text),
        "enterprise_oid_name"@,
        "enterprise_oid_module"@,
        "enterprise_oid_symbol"@,
        "enterprise_oid_instance"@,
        resolve_text(names, trap.enterprise.text),
    )
    &&& event.contains_key("agent_address"@)
    &&& event["agent_address"@] is Text
    &&& numeric_oid(event["agent_address"@]->Text_0) == Some(
        match trap.agent_addr {
            NetworkAddress::IPv4(a, b, c, d) => seq![a as u32, b as u32, c as u32, d as u32],
        },
    )
    &&& event.contains_key("generic_trap"@)
    &&& event["generic_trap"@] is Integer
    &&& event["generic_trap"@]->Integer_0 == generic_trap
    &&& event.contains_key("generic_trap_name"@)
    &&& event["generic_trap_name"@] is Text
    &&& names_generic_trap(event["generic_trap_name"@]->Text_0, generic_trap)
    &&& event.contains_key("specific_trap"@)
    &&& event["specific_trap"@] is Integer
    &&& event["specific_trap"@]->Integer_0 == trap.specific_trap
    &&& event.contains_key("uptime"@)
    &&& event["uptime"@] is Integer
    &&& event["uptime"@]->Integer_0 == trap.timestamp
    &&& event.contains_key("varbinds"@)
    &&& shows_variables(event["varbinds"@], trap.var, names)
    &&& has_field(
        event,
        "message"@,
        LogValueView::Text(
            "SNMPv1 trap from "@ + source_addr + " ("@ + trap.enterprise.text + "): "@
                + event["generic_trap_name"@]->Text_0,
        ),
    )
}

proof fn lemma_v1_event(
    community: Seq<char>,
    trap: TrapPduView,
    generic_trap: u8,
    source_addr: Seq<char>,
    names: Map<Seq<u32>, SymbolView>,
)
    requires
        generic_trap <= 6,
    ensures
        shows_v1_trap(
            v1_event(community, trap, generic_trap, source_addr, names),
            community,
            trap,
            generic_trap as int,
            source_addr,
            names,
        ),
{
    lemma_field_names();
    lemma_names_differ();
    let NetworkAddress::IPv4(a, b, c, d) = trap.agent_addr;
    addresses_read_back(a, b, c, d);
    let event = v1_event(community, trap, generic_trap, source_addr, names);
    lemma_variables_shown(event["varbinds"@], trap.var, names);
}

proof fn lemma_variables_shown(
    value: LogValueView,
    variables: Seq<VariableView>,
    names: Map<Seq<u32>, SymbolView>,
)
    requires
        value == LogValueView::Objects(
            crate::event::text_objects(crate::varbind::all_varbind_fields(variables, names)),
        ),
    ensures
        shows_variables(value, variables, names),
{
    assert forall|i: int| 0 <= i < variables.len() implies (#[trigger] value->Objects_0[i])
        is Object && shows_variable(value->Objects_0[i]->Object_0, variables[i], names) by {
        variables_are_shown(variables[i], names);
        assert(value->Objects_0[i] == Tree::Object(
            varbind_fields(variables[i], names).map_values(|text: Seq<char>| Tree::Text(text)),
        ));
    }
}

/// An SNMPv1 message is accepted if and only if it is a trap whose generic-trap, as its octets write
/// it, is one that RFC 1157 defines. It then gives one event, which shows the whole trap with all its
/// variable bindings, and is owed no response.
pub proof fn v1_traps_are_shown(
    message: MessageView,
    data: Seq<u8>,
    source_addr: Seq<char>,
    names: Map<Seq<u32>, SymbolView>,
)
    ensures
        v1_notification(message, data, source_addr, names) is Ok <==> message.pdu is TrapV1
            && v1_generic_trap(data) is Ok && 0 <= v1_generic_trap(data)->Ok_0 <= 6,
        v1_notification(message, data, source_addr, names) is Ok ==> ({
            let notification = v1_notification(message, data, source_addr, names)->Ok_0;
            &&& notification.response is None
            &&& notification.events.len() == 1
            &&& shows_v1_trap(
                notification.events[0],
                message.community,
                message.pdu->TrapV1_0,
                v1_generic_trap(data)->Ok_0 as int,
                source_addr,
                names,
            )
        }),
        !(message.pdu is TrapV1) ==> v1_notification(message, data, source_addr, names) == Err::<
            NotificationView,
            _,
        >(
            ParseErrorView::InvalidPduType(
                match message.pdu {
                    PduView::Generic(pdu) => pdu.pdu_type,
                    PduView::Bulk => PduType::GetBulkRequest,
                    PduView::TrapV1(_) => PduType::TrapV1,
                },
            ),
        ),
        message.pdu is TrapV1 ==> (v1_generic_trap(data) matches Err(error) ==> v1_notification(
            message,
            data,
            source_addr,
            names,
        ) == Err::<NotificationView, _>(error)),
        message.pdu is TrapV1 && v1_generic_trap(data) is Ok && !(0 <= v1_generic_trap(data)->Ok_0
            <= 6) ==> v1_notification(message, data, source_addr, names) is Err && v1_notification(
            message,
            data,
            source_addr,
            names,
        )->Err_0 is InvalidV1Trap,
{
    if let Ok(notification) = v1_notification(message, data, source_addr, names) {
        lemma_v1_event(
            message.community,
            message.pdu->TrapV1_0,
            v1_generic_trap(data)->Ok_0 as u8,
            source_addr,
            names,
        );
    }
}

/// The event shows an SNMPv2c notification: every part of it in a field of its own.
pub open spec fn shows_v2c_notification(
    event: Map<Seq<char>, LogValueView>,
    community: Seq<char>,
    pdu: GenericPduView,
    request_id: i64,
    source_addr: Seq<char>,
    names: Map<Seq<u32>, SymbolView>,
) -> bool {
    let inform = pdu.pdu_type == PduType::InformRequest;
    let trap_oid = pdu.var[1].val->Value_0->Object_0.text;
    &&& has_field(event, "snmp_version"@, LogValueView::Text("2c"@))
    &&& has_field(
        event,
        "pdu_type"@,
        LogValueView::Text(
            if inform {
                "inform_request"@
            } else {
                "trap_v2"@
            },
        ),
    )
    &&& has_field(event, "source_address"@, LogValueView::Text(source_addr))
    &&& has_field(event, "community"@, LogValueView::Text(community))
    &&& has_field(event, "request_id"@, LogValueView::Integer(request_id))
    &&& event.contains_key("uptime"@)
    &&& event["uptime"@] is Integer
    &&& event["uptime"@]->Integer_0 == pdu.var[0].val->Value_0->TimeTicks_0
    &&& has_field(event, "trap_oid"@, LogValueView::Text(trap_oid))
    &&& tells_known(
        event,
        |text: Seq<char>| LogValueView::Text(text),
        "trap_oid_name"@,
        "trap_oid_module"@,
        "trap_oid_symbol"@,
        "trap_oid_instance"@,
        resolve_text(names, trap_oid),
    )
    &&& event.contains_key("varbinds"@)
    &&& shows_variables(event["varbinds"@], pdu.var, names)
    &&& has_field(
        event,
        "message"@,
        LogValueView::Text(
            "SNMPv2c "@ + (if inform {
                "inform"@
            } else {
                "trap"@
            }) + " from "@ + source_addr + ": "@ + trap_oid,
        ),
    )
}

proof fn lemma_v2c_event(
    community: Seq<char>,
    pdu: GenericPduView,
    request_id: i64,
    source_addr: Seq<char>,
    names: Map<Seq<u32>, SymbolView>,
)
    requires
        starts_a_notification(pdu.var),
    ensures
        shows_v2c_notification(
            v2c_event(
                community,
                pdu,
                request_id,
                pdu.var[0].val->Value_0->TimeTicks_0 as i64,
                pdu.var[1].val->Value_0->Object_0.text,
                source_addr,
                names,
            ),
            community,
            pdu,
            request_id,
            source_addr,
            names,
        ),
{
    lemma_field_names();
    lemma_names_differ();
    let event = v2c_event(
        community,
        pdu,
        request_id,
        pdu.var[0].val->Value_0->TimeTicks_0 as i64,
        pdu.var[1].val->Value_0->Object_0.text,
        source_addr,
        names,
    );
    lemma_variables_shown(event["varbinds"@], pdu.var, names);
}

/// The variable bindings start with `sysUpTime.0`, a time, and `snmpTrapOID.0`, an object identifier.
pub open spec fn starts_a_notification(variables: Seq<VariableView>) -> bool {
    &&& variables.len() >= 2
    &&& variables[0].oid.text == "1.3.6.1.2.1.1.3.0"@
    &&& variables[0].val is Value
    &&& variables[0].val->Value_0 is TimeTicks
    &&& variables[1].oid.text == "1.3.6.1.6.3.1.1.4.1.0"@
    &&& variables[1].val is Value
    &&& variables[1].val->Value_0 is Object
}

/// An SNMPv2c message is accepted if and only if it is a trap or an inform that starts with the
/// variable bindings of RFC 3416. It then gives one event, which shows the whole notification with
/// all its variable bindings.
pub proof fn v2c_notifications_are_shown(
    message: MessageView,
    request_id: i64,
    source_addr: Seq<char>,
    names: Map<Seq<u32>, SymbolView>,
)
    ensures
        v2c_notification(message, request_id, source_addr, names) is Ok <==> message.pdu is Generic
            && (message.pdu->Generic_0.pdu_type == PduType::TrapV2
            || message.pdu->Generic_0.pdu_type == PduType::InformRequest) && starts_a_notification(
            message.pdu->Generic_0.var,
        ),
        v2c_notification(message, request_id, source_addr, names) is Ok ==> ({
            let notification = v2c_notification(message, request_id, source_addr, names)->Ok_0;
            &&& notification.events.len() == 1
            &&& shows_v2c_notification(
                notification.events[0],
                message.community,
                message.pdu->Generic_0,
                request_id,
                source_addr,
                names,
            )
        }),
        !(message.pdu is Generic && (message.pdu->Generic_0.pdu_type == PduType::TrapV2
            || message.pdu->Generic_0.pdu_type == PduType::InformRequest)) ==> v2c_notification(
            message,
            request_id,
            source_addr,
            names,
        ) == Err::<NotificationView, _>(
            ParseErrorView::InvalidPduType(
                match message.pdu {
                    PduView::Generic(pdu) => pdu.pdu_type,
                    PduView::Bulk => PduType::GetBulkRequest,
                    PduView::TrapV1(_) => PduType::TrapV1,
                },
            ),
        ),
        message.pdu is Generic && (message.pdu->Generic_0.pdu_type == PduType::TrapV2
            || message.pdu->Generic_0.pdu_type == PduType::InformRequest)
            && !starts_a_notification(message.pdu->Generic_0.var) ==> v2c_notification(
            message,
            request_id,
            source_addr,
            names,
        ) is Err && v2c_notification(
            message,
            request_id,
            source_addr,
            names,
        )->Err_0 is InvalidV2cNotification,
{
    if let Ok(notification) = v2c_notification(message, request_id, source_addr, names) {
        lemma_v2c_event(
            message.community,
            message.pdu->Generic_0,
            request_id,
            source_addr,
            names,
        );
    }
}

/// A datagram is what the first parser that finds a message in it makes of it, and only if nothing
/// stands behind the message.
pub proof fn datagrams_are_taken_whole(
    data: Seq<u8>,
    v1: Option<(Seq<u8>, MessageView)>,
    v2c: Option<(Seq<u8>, MessageView)>,
    patched: Option<(Seq<u8>, MessageView)>,
    version_3: bool,
    source_addr: Seq<char>,
    names: Map<Seq<u32>, SymbolView>,
)
    ensures
        ({
            let result = notification_by(data, v1, v2c, patched, version_3, source_addr, names);
            &&& v1 matches Some((rest, message)) ==> result == if rest.len() == 0 {
                v1_notification(message, data, source_addr, names)
            } else {
                Err(ParseErrorView::TrailingData(rest.len()))
            }
            &&& v1 is None ==> (v2c matches Some((rest, message)) ==> {
                &&& rest.len() > 0 ==> result == Err::<NotificationView, _>(
                    ParseErrorView::TrailingData(rest.len()),
                )
                &&& rest.len() == 0 && v2c_request_id(data) is Ok ==> result == v2c_notification(
                    message,
                    v2c_request_id(data)->Ok_0,
                    source_addr,
                    names,
                )
                &&& rest.len() == 0 ==> (v2c_request_id(data) matches Err(error) ==> result == Err::<
                    NotificationView,
                    _,
                >(error))
            })
            &&& v1 is None && v2c is None ==> {
                let patch = negative_request_id_patch(data);
                &&& patch is Ok && patch->Ok_0 is Some ==> (patched matches Some((rest, message))
                    ==> result == if rest.len() == 0 {
                    v2c_notification(message, (patch->Ok_0->0).1, source_addr, names)
                } else {
                    Err(ParseErrorView::TrailingData(rest.len()))
                })
                &&& patch matches Err(error) ==> result == Err::<NotificationView, _>(error)
                &&& patch is Ok && (patch->Ok_0 is None || patched is None) ==> {
                    &&& result is Err
                    &&& version_3 ==> result->Err_0 is UnsupportedVersion
                    &&& !version_3 ==> result->Err_0 is MalformedMessage
                }
            }
        }),
{
}

/// A negative request-id is found in every SNMPv2c message that has one, and in no other.
pub proof fn negative_request_ids_are_found(data: Seq<u8>)
    requires
        v2c_request_id(data) is Ok,
        0xa0 <= message_fields(data)->Ok_0.2.tag < 0xc0,
    ensures
        negative_request_id_patch(data) is Ok,
        negative_request_id_patch(data)->Ok_0 is Some <==> v2c_request_id(data)->Ok_0 < 0,
        negative_request_id_patch(data)->Ok_0 matches Some((_, request_id)) ==> request_id
            == v2c_request_id(data)->Ok_0,
{
}

/// What is tried again of a datagram with a negative request-id is the datagram with that zeroed.
pub proof fn negative_request_ids_are_tried_again(data: Seq<u8>)
    ensures
        negative_request_id_patch(data) matches Ok(Some((patched, _))) ==> patched_v2c(data)
            == snmp_v2c(patched),
        !(negative_request_id_patch(data) is Ok && negative_request_id_patch(data)->Ok_0 is Some)
            ==> patched_v2c(data) is None,
{
}

/// A datagram is parsed by what the parsers find in it as it is, with the peer that it came from.
pub proof fn datagrams_are_parsed_as_they_are(
    data: Seq<u8>,
    peer: Seq<char>,
    names: Map<Seq<u32>, SymbolView>,
)
    ensures
        parsed_event(SourceEventView::Received { data, peer }, names) == notification_by(
            data,
            snmp_v1(data),
            snmp_v2c(data),
            patched_v2c(data),
            snmp_v3(data),
            peer,
            names,
        ),
{
}

/// A trap or an inform that does not start as it has to is refused for the first thing that is wrong
/// with its variable bindings.
pub proof fn notifications_are_refused_for_their_first_fault(
    message: MessageView,
    request_id: i64,
    source_addr: Seq<char>,
    names: Map<Seq<u32>, SymbolView>,
)
    requires
        message.pdu is Generic,
        message.pdu->Generic_0.pdu_type == PduType::TrapV2 || message.pdu->Generic_0.pdu_type
            == PduType::InformRequest,
    ensures
        ({
            let result = v2c_notification(message, request_id, source_addr, names);
            let variables = message.pdu->Generic_0.var;
            let timed = variables[0].oid.text == "1.3.6.1.2.1.1.3.0"@;
            let ticks = variables[0].val is Value && variables[0].val->Value_0 is TimeTicks;
            let named = variables[1].oid.text == "1.3.6.1.6.3.1.1.4.1.0"@;
            let known = variables[1].val is Value && variables[1].val->Value_0 is Object;
            &&& variables.len() == 0 ==> is_refused(
                result,
                "missing sysUpTime.0 and snmpTrapOID.0 varbinds"@,
            )
            &&& variables.len() > 0 && !timed ==> is_refused(
                result,
                "first varbind must be sysUpTime.0"@,
            )
            &&& variables.len() > 0 && timed && !ticks ==> is_refused(
                result,
                "sysUpTime.0 varbind must contain TimeTicks"@,
            )
            &&& variables.len() == 1 && timed && ticks ==> is_refused(
                result,
                "missing snmpTrapOID.0 varbind"@,
            )
            &&& variables.len() > 1 && timed && ticks && !named ==> is_refused(
                result,
                "second varbind must be snmpTrapOID.0"@,
            )
            &&& variables.len() > 1 && timed && ticks && named && !known ==> is_refused(
                result,
                "snmpTrapOID.0 varbind must contain an ObjectIdentifier"@,
            )
        }),
{
}

/// The notification is refused with the sentence.
pub open spec fn is_refused(
    result: Result<NotificationView, ParseErrorView>,
    detail: Seq<char>,
) -> bool {
    result == Err::<NotificationView, _>(ParseErrorView::InvalidV2cNotification(detail))
}

} // verus!
