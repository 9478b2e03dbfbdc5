//! What holds of every notification.

use crate::config::{event_schema, source_metadata, varbind_schema, FieldKind, FieldView};
use crate::enrich::{
    enriched, metadata_beside, metadata_is_beside_its_event, LogNamespace, MetadataKeys,
};
use crate::error::{ParseErrorView, PduType};
use crate::event::{event_tree, LogValueView};
use crate::mib::table::SymbolView;
use crate::model::{GenericPduView, MessageView, TrapPduView, VariableView};
use crate::notification::{notification_by, v1_event, v1_notification, v2c_event, v2c_notification};
use crate::raw::{
    content_of, is_version, message_fields, negative_request_id_patch,
    patch_replaces_the_request_id_alone, v2c_request_id,
};
use crate::response::{response_octets, response_reads_back, MAX_SNMP_MESSAGE_SIZE};
use crate::tree::{members_of, opt_path, tree_at, tree_with, SegmentView, Tree};
use crate::varbind::{basic_fields, varbind_fields};
use vstd::prelude::*;
use vstd::string::*;
use vstd::utf8::encode_utf8;

pub mod courses;
pub mod elements;
pub mod events;
pub mod forms;
pub mod handing;
pub mod hints;
pub mod responses;
pub mod schema;
pub mod shown;
pub mod views;

verus! {

proof fn lemma_field_names()
    ensures
        "enterprise_oid"@ + "_name"@ == "enterprise_oid_name"@,
        "enterprise_oid"@ + "_module"@ == "enterprise_oid_module"@,
        "enterprise_oid"@ + "_symbol"@ == "enterprise_oid_symbol"@,
        "enterprise_oid"@ + "_instance"@ == "enterprise_oid_instance"@,
        "trap_oid"@ + "_name"@ == "trap_oid_name"@,
        "trap_oid"@ + "_module"@ == "trap_oid_module"@,
        "trap_oid"@ + "_symbol"@ == "trap_oid_symbol"@,
        "trap_oid"@ + "_instance"@ == "trap_oid_instance"@,
        "oid"@ + "_name"@ == "oid_name"@,
        "oid"@ + "_module"@ == "oid_module"@,
        "oid"@ + "_symbol"@ == "oid_symbol"@,
        "oid"@ + "_instance"@ == "oid_instance"@,
        "value_oid"@ + "_name"@ == "value_oid_name"@,
        "value_oid"@ + "_module"@ == "value_oid_module"@,
        "value_oid"@ + "_symbol"@ == "value_oid_symbol"@,
        "value_oid"@ + "_instance"@ == "value_oid_instance"@,
        "snmp_version"@.len() == 12,
        "pdu_type"@.len() == 8,
        "source_address"@.len() == 14,
        "community"@.len() == 9,
        "enterprise_oid"@.len() == 14,
        "agent_address"@.len() == 13,
        "generic_trap"@.len() == 12,
        "generic_trap_name"@.len() == 17,
        "specific_trap"@.len() == 13,
        "request_id"@.len() == 10,
        "trap_oid"@.len() == 8,
        "uptime"@.len() == 6,
        "varbinds"@.len() == 8,
        "message"@.len() == 7,
        "oid"@.len() == 3,
        "type"@.len() == 4,
        "value"@.len() == 5,
        "value_bytes_hex"@.len() == 15,
        "value_oid"@.len() == 9,
        "enterprise_oid_name"@.len() == 19,
        "enterprise_oid_module"@.len() == 21,
        "enterprise_oid_symbol"@.len() == 21,
        "enterprise_oid_instance"@.len() == 23,
        "trap_oid_name"@.len() == 13,
        "trap_oid_module"@.len() == 15,
        "trap_oid_symbol"@.len() == 15,
        "trap_oid_instance"@.len() == 17,
        "oid_name"@.len() == 8,
        "oid_module"@.len() == 10,
        "oid_symbol"@.len() == 10,
        "oid_instance"@.len() == 12,
        "value_oid_name"@.len() == 14,
        "value_oid_module"@.len() == 16,
        "value_oid_symbol"@.len() == 16,
        "value_oid_instance"@.len() == 18,
        "trap_oid"@ != "varbinds"@,
{
    reveal_strlit("snmp_version");
    reveal_strlit("pdu_type");
    reveal_strlit("source_address");
    reveal_strlit("community");
    reveal_strlit("enterprise_oid");
    reveal_strlit("agent_address");
    reveal_strlit("generic_trap");
    reveal_strlit("generic_trap_name");
    reveal_strlit("specific_trap");
    reveal_strlit("request_id");
    reveal_strlit("trap_oid");
    reveal_strlit("uptime");
    reveal_strlit("varbinds");
    reveal_strlit("message");
    reveal_strlit("oid");
    reveal_strlit("type");
    reveal_strlit("value");
    reveal_strlit("value_bytes_hex");
    reveal_strlit("value_oid");
    reveal_strlit("_name");
    reveal_strlit("_module");
    reveal_strlit("_symbol");
    reveal_strlit("_instance");
    reveal_strlit("enterprise_oid_name");
    reveal_strlit("enterprise_oid_module");
    reveal_strlit("enterprise_oid_symbol");
    reveal_strlit("enterprise_oid_instance");
    reveal_strlit("trap_oid_name");
    reveal_strlit("trap_oid_module");
    reveal_strlit("trap_oid_symbol");
    reveal_strlit("trap_oid_instance");
    reveal_strlit("oid_name");
    reveal_strlit("oid_module");
    reveal_strlit("oid_symbol");
    reveal_strlit("oid_instance");
    reveal_strlit("value_oid_name");
    reveal_strlit("value_oid_module");
    reveal_strlit("value_oid_symbol");
    reveal_strlit("value_oid_instance");
    assert("enterprise_oid"@ + "_name"@ =~= "enterprise_oid_name"@);
    assert("enterprise_oid"@ + "_module"@ =~= "enterprise_oid_module"@);
    assert("enterprise_oid"@ + "_symbol"@ =~= "enterprise_oid_symbol"@);
    assert("enterprise_oid"@ + "_instance"@ =~= "enterprise_oid_instance"@);
    assert("trap_oid"@ + "_name"@ =~= "trap_oid_name"@);
    assert("trap_oid"@ + "_module"@ =~= "trap_oid_module"@);
    assert("trap_oid"@ + "_symbol"@ =~= "trap_oid_symbol"@);
    assert("trap_oid"@ + "_instance"@ =~= "trap_oid_instance"@);
    assert("oid"@ + "_name"@ =~= "oid_name"@);
    assert("oid"@ + "_module"@ =~= "oid_module"@);
    assert("oid"@ + "_symbol"@ =~= "oid_symbol"@);
    assert("oid"@ + "_instance"@ =~= "oid_instance"@);
    assert("value_oid"@ + "_name"@ =~= "value_oid_name"@);
    assert("value_oid"@ + "_module"@ =~= "value_oid_module"@);
    assert("value_oid"@ + "_symbol"@ =~= "value_oid_symbol"@);
    assert("value_oid"@ + "_instance"@ =~= "value_oid_instance"@);
    assert("trap_oid"@[0] != "varbinds"@[0]);
}

/// A message of SNMPv1 is owed no response, and a message of SNMPv2c only where it is an inform.
/// Every message that is accepted gives exactly one event.
pub proof fn only_informs_are_answered(
    message: MessageView,
    request_id: i64,
    data: Seq<u8>,
    source_addr: Seq<char>,
    names: Map<Seq<u32>, SymbolView>,
)
    ensures
        v1_notification(message, data, source_addr, names) matches Ok(notification)
            ==> notification.response is None && notification.events.len() == 1,
        v2c_notification(message, request_id, source_addr, names) matches Ok(notification)
            ==> notification.events.len() == 1 && (notification.response is Some
            ==> message.pdu.pdu_type() == PduType::InformRequest),
{
}

/// The response to an inform fits a UDP datagram, and reads back as an SNMPv2c message with the
/// community and the request-id of the inform and a Response-PDU.
pub proof fn responses_answer_their_inform(
    message: MessageView,
    request_id: i64,
    source_addr: Seq<char>,
    names: Map<Seq<u32>, SymbolView>,
    response: Seq<u8>,
)
    requires
        i32::MIN <= request_id <= i32::MAX,
        v2c_notification(message, request_id, source_addr, names) matches Ok(notification)
            && notification.response == Some(response),
    ensures
        response.len() <= MAX_SNMP_MESSAGE_SIZE,
        message_fields(response) matches Ok((version, community, pdu)) && is_version(
            response,
            version,
            1,
        ) == Ok::<_, ParseErrorView>(true) && content_of(response, community) == encode_utf8(
            message.community,
        ) && pdu.tag == 0xa2,
        v2c_request_id(response) == Ok::<_, ParseErrorView>(request_id),
{
    let variables = message.pdu->Generic_0.var;
    let community = encode_utf8(message.community);
    let full = response_octets(community, request_id as int, 0, 0, variables);
    if full.len() <= MAX_SNMP_MESSAGE_SIZE {
        response_reads_back(community, request_id as int, 0, 0, variables);
    } else {
        response_reads_back(community, request_id as int, 1, 0, Seq::empty());
    }
}

/// Whatever the parsers find in a datagram: an event with a request-id has the one that the datagram
/// itself carries, negative ones included, and so has the response.
pub proof fn request_ids_are_preserved(
    data: Seq<u8>,
    v1: Option<(Seq<u8>, MessageView)>,
    v2c: Option<(Seq<u8>, MessageView)>,
    patched: Option<(Seq<u8>, MessageView)>,
    version_3: bool,
    source_addr: Seq<char>,
    names: Map<Seq<u32>, SymbolView>,
)
    ensures
        match notification_by(data, v1, v2c, patched, version_3, source_addr, names) {
            Ok(notification) => {
                &&& v1 is None ==> v2c_request_id(data) is Ok
                    && notification.events[0]["request_id"@] == LogValueView::Integer(
                    v2c_request_id(data)->Ok_0,
                )
                &&& notification.response matches Some(response) ==> v2c_request_id(response)
                    == v2c_request_id(data) && response.len() <= MAX_SNMP_MESSAGE_SIZE
            },
            Err(_) => true,
        },
{
    lemma_field_names();
    if let Ok(notification) = notification_by(
        data,
        v1,
        v2c,
        patched,
        version_3,
        source_addr,
        names,
    ) {
        if v1 is None {
            let (message, request_id) = match v2c {
                Some((_, message)) => (message, v2c_request_id(data)->Ok_0),
                None => {
                    let (zeroed, request_id) = negative_request_id_patch(data)->Ok_0->0;
                    patch_replaces_the_request_id_alone(data, zeroed, request_id);
                    ((patched->0).1, request_id)
                },
            };
            if let Some(response) = notification.response {
                responses_answer_their_inform(message, request_id, source_addr, names, response);
            }
        }
    }
}

/// The fields of `plain` are in `named` with their values.
pub open spec fn keeps(
    named: Map<Seq<char>, LogValueView>,
    plain: Map<Seq<char>, LogValueView>,
) -> bool {
    forall|key: Seq<char>| #[trigger]
        plain.contains_key(key) && key != "varbinds"@ ==> named.contains_key(key) && named[key]
            == plain[key]
}

/// Whatever names are known, the numeric enterprise identifier and every other field of an SNMPv1
/// event are as without names: what names tell comes in fields of its own.
pub proof fn names_only_add_to_v1_events(
    community: Seq<char>,
    trap: TrapPduView,
    generic_trap: u8,
    source_addr: Seq<char>,
    names: Map<Seq<u32>, SymbolView>,
)
    ensures
        keeps(
            v1_event(community, trap, generic_trap, source_addr, names),
            v1_event(community, trap, generic_trap, source_addr, Map::empty()),
        ),
        v1_event(community, trap, generic_trap, source_addr, names)["enterprise_oid"@]
            == LogValueView::Text(trap.enterprise.text),
{
    lemma_field_names();
    lemma_nothing_known(trap.enterprise.text);
}

/// Whatever names are known, the numeric notification identifier and every other field of an
/// SNMPv2c event are as without names: what names tell comes in fields of its own.
pub proof fn names_only_add_to_v2c_events(
    community: Seq<char>,
    pdu: GenericPduView,
    request_id: i64,
    uptime: i64,
    trap_oid: Seq<char>,
    source_addr: Seq<char>,
    names: Map<Seq<u32>, SymbolView>,
)
    ensures
        keeps(
            v2c_event(community, pdu, request_id, uptime, trap_oid, source_addr, names),
            v2c_event(community, pdu, request_id, uptime, trap_oid, source_addr, Map::empty()),
        ),
        v2c_event(community, pdu, request_id, uptime, trap_oid, source_addr, names)["trap_oid"@]
            == LogValueView::Text(trap_oid),
{
    lemma_field_names();
    lemma_nothing_known(trap_oid);
}

proof fn lemma_nothing_known(oid: Seq<char>)
    ensures
        crate::mib::resolver::resolve_text(Map::empty(), oid) is None,
{
    if let Some(arcs) = crate::mib::resolver::numeric_oid(oid) {
        crate::mib::laws::instance_is_of_the_longest_prefix(Map::empty(), arcs, arcs.len() - 1);
    }
}

/// Whatever names are known, a variable binding keeps its numeric identifier, its type and its
/// value: what names tell comes in fields of its own.
pub proof fn names_only_add_to_varbinds(
    variable: VariableView,
    names: Map<Seq<u32>, SymbolView>,
)
    ensures
        forall|key: Seq<char>| #[trigger]
            basic_fields(variable).contains_key(key) ==> varbind_fields(
                variable,
                names,
            ).contains_key(key) && varbind_fields(variable, names)[key] == basic_fields(
                variable,
            )[key],
        varbind_fields(variable, names)["oid"@] == variable.oid.text,
{
    lemma_field_names();
}

/// The kind of a value.
pub open spec fn kind_of(value: LogValueView) -> FieldKind {
    match value {
        LogValueView::Text(_) => FieldKind::Bytes,
        LogValueView::Integer(_) => FieldKind::Integer,
        LogValueView::Objects(_) => FieldKind::Objects,
    }
}

/// The schema has a field of this name and kind.
pub open spec fn declares(schema: Seq<FieldView>, name: Seq<char>, kind: FieldKind) -> bool {
    exists|i: int|
        0 <= i < schema.len() && (#[trigger] schema[i]).name == name && schema[i].kind == kind
}

/// Every field of the event is in the schema with its kind, and every field that the schema does
/// not call optional is in the event.
pub open spec fn conforms(event: Map<Seq<char>, LogValueView>, schema: Seq<FieldView>) -> bool {
    &&& forall|key: Seq<char>| #[trigger]
        event.contains_key(key) ==> declares(schema, key, kind_of(event[key]))
    &&& forall|i: int|
        0 <= i < schema.len() && !(#[trigger] schema[i]).optional ==> event.contains_key(
            schema[i].name,
        )
}

/// Every field of the variable binding is in the schema as bytes, and every field that the schema
/// does not call optional is in the variable binding.
pub open spec fn varbind_conforms(
    fields: Map<Seq<char>, Seq<char>>,
    schema: Seq<FieldView>,
) -> bool {
    &&& forall|key: Seq<char>| #[trigger]
        fields.contains_key(key) ==> declares(schema, key, FieldKind::Bytes)
    &&& forall|i: int|
        0 <= i < schema.len() && !(#[trigger] schema[i]).optional ==> fields.contains_key(
            schema[i].name,
        )
}

proof fn lemma_event_schema()
    ensures
        declares(event_schema(), "snmp_version"@, FieldKind::Bytes),
        declares(event_schema(), "pdu_type"@, FieldKind::Bytes),
        declares(event_schema(), "source_address"@, FieldKind::Bytes),
        declares(event_schema(), "community"@, FieldKind::Bytes),
        declares(event_schema(), "enterprise_oid"@, FieldKind::Bytes),
        declares(event_schema(), "enterprise_oid_name"@, FieldKind::Bytes),
        declares(event_schema(), "enterprise_oid_module"@, FieldKind::Bytes),
        declares(event_schema(), "enterprise_oid_symbol"@, FieldKind::Bytes),
        declares(event_schema(), "enterprise_oid_instance"@, FieldKind::Bytes),
        declares(event_schema(), "agent_address"@, FieldKind::Bytes),
        declares(event_schema(), "generic_trap"@, FieldKind::Integer),
        declares(event_schema(), "generic_trap_name"@, FieldKind::Bytes),
        declares(event_schema(), "specific_trap"@, FieldKind::Integer),
        declares(event_schema(), "request_id"@, FieldKind::Integer),
        declares(event_schema(), "trap_oid"@, FieldKind::Bytes),
        declares(event_schema(), "trap_oid_name"@, FieldKind::Bytes),
        declares(event_schema(), "trap_oid_module"@, FieldKind::Bytes),
        declares(event_schema(), "trap_oid_symbol"@, FieldKind::Bytes),
        declares(event_schema(), "trap_oid_instance"@, FieldKind::Bytes),
        declares(event_schema(), "uptime"@, FieldKind::Integer),
        declares(event_schema(), "varbinds"@, FieldKind::Objects),
        declares(event_schema(), "message"@, FieldKind::Bytes),
        forall|i: int|
            0 <= i < event_schema().len() && !(#[trigger] event_schema()[i]).optional ==> {
                ||| event_schema()[i].name == "snmp_version"@
                ||| event_schema()[i].name == "pdu_type"@
                ||| event_schema()[i].name == "source_address"@
                ||| event_schema()[i].name == "community"@
                ||| event_schema()[i].name == "varbinds"@
                ||| event_schema()[i].name == "message"@
            },
{
    let schema = event_schema();
    assert(schema[0].name == "snmp_version"@);
    assert(schema[1].name == "pdu_type"@);
    assert(schema[2].name == "source_address"@);
    assert(schema[3].name == "community"@);
    assert(schema[4].name == "enterprise_oid"@);
    assert(schema[5].name == "enterprise_oid_name"@);
    assert(schema[6].name == "enterprise_oid_module"@);
    assert(schema[7].name == "enterprise_oid_symbol"@);
    assert(schema[8].name == "enterprise_oid_instance"@);
    assert(schema[9].name == "agent_address"@);
    assert(schema[10].name == "generic_trap"@);
    assert(schema[11].name == "generic_trap_name"@);
    assert(schema[12].name == "specific_trap"@);
    assert(schema[13].name == "request_id"@);
    assert(schema[14].name == "trap_oid"@);
    assert(schema[15].name == "trap_oid_name"@);
    assert(schema[16].name == "trap_oid_module"@);
    assert(schema[17].name == "trap_oid_symbol"@);
    assert(schema[18].name == "trap_oid_instance"@);
    assert(schema[19].name == "uptime"@);
    assert(schema[20].name == "varbinds"@);
    assert(schema[21].name == "message"@);
}

proof fn lemma_varbind_schema()
    ensures
        declares(varbind_schema(), "oid"@, FieldKind::Bytes),
        declares(varbind_schema(), "oid_name"@, FieldKind::Bytes),
        declares(varbind_schema(), "oid_module"@, FieldKind::Bytes),
        declares(varbind_schema(), "oid_symbol"@, FieldKind::Bytes),
        declares(varbind_schema(), "oid_instance"@, FieldKind::Bytes),
        declares(varbind_schema(), "type"@, FieldKind::Bytes),
        declares(varbind_schema(), "value"@, FieldKind::Bytes),
        declares(varbind_schema(), "value_bytes_hex"@, FieldKind::Bytes),
        declares(varbind_schema(), "value_oid_name"@, FieldKind::Bytes),
        declares(varbind_schema(), "value_oid_module"@, FieldKind::Bytes),
        declares(varbind_schema(), "value_oid_symbol"@, FieldKind::Bytes),
        declares(varbind_schema(), "value_oid_instance"@, FieldKind::Bytes),
        forall|i: int|
            0 <= i < varbind_schema().len() && !(#[trigger] varbind_schema()[i]).optional ==> {
                ||| varbind_schema()[i].name == "oid"@
                ||| varbind_schema()[i].name == "type"@
                ||| varbind_schema()[i].name == "value"@
            },
{
    let schema = varbind_schema();
    assert(schema[0].name == "oid"@);
    assert(schema[1].name == "oid_name"@);
    assert(schema[2].name == "oid_module"@);
    assert(schema[3].name == "oid_symbol"@);
    assert(schema[4].name == "oid_instance"@);
    assert(schema[5].name == "type"@);
    assert(schema[6].name == "value"@);
    assert(schema[7].name == "value_bytes_hex"@);
    assert(schema[8].name == "value_oid_name"@);
    assert(schema[9].name == "value_oid_module"@);
    assert(schema[10].name == "value_oid_symbol"@);
    assert(schema[11].name == "value_oid_instance"@);
}

/// Every event of an SNMPv1 trap conforms to the schema that the source announces.
pub proof fn v1_events_conform(
    community: Seq<char>,
    trap: TrapPduView,
    generic_trap: u8,
    source_addr: Seq<char>,
    names: Map<Seq<u32>, SymbolView>,
)
    ensures
        conforms(v1_event(community, trap, generic_trap, source_addr, names), event_schema()),
{
    lemma_field_names();
    lemma_event_schema();
}

/// Every event of an SNMPv2c trap or inform conforms to the schema that the source announces.
pub proof fn v2c_events_conform(
    community: Seq<char>,
    pdu: GenericPduView,
    request_id: i64,
    uptime: i64,
    trap_oid: Seq<char>,
    source_addr: Seq<char>,
    names: Map<Seq<u32>, SymbolView>,
)
    ensures
        conforms(
            v2c_event(community, pdu, request_id, uptime, trap_oid, source_addr, names),
            event_schema(),
        ),
{
    lemma_field_names();
    lemma_event_schema();
}

/// Every variable binding in an event conforms to the schema that the source announces.
pub proof fn varbinds_conform(variable: VariableView, names: Map<Seq<u32>, SymbolView>)
    ensures
        varbind_conforms(varbind_fields(variable, names), varbind_schema()),
{
    lemma_field_names();
    lemma_varbind_schema();
}

/// No event of a notification has a field of the usual names for metadata.
pub proof fn notifications_leave_metadata_fields(fields: Map<Seq<char>, LogValueView>)
    requires
        conforms(fields, event_schema()),
    ensures
        !fields.contains_key("source_type"@),
        !fields.contains_key("timestamp"@),
        !fields.contains_key("host"@),
{
    lemma_field_names();
    reveal_strlit("source_type");
    reveal_strlit("timestamp");
    reveal_strlit("host");
    reveal_strlit("community");
    assert("timestamp"@[0] != "community"@[0]);
    lemma_event_schema();
    let schema = event_schema();
    assert forall|i: int| 0 <= i < schema.len() implies (#[trigger] schema[i]).name
        != "source_type"@ && schema[i].name != "timestamp"@ && schema[i].name != "host"@ by {}
}

/// With the usual keys, an event that is handed on consists of the fields of its notification, the
/// name of the source, the time, and the host in the configured field.
pub proof fn events_show_their_metadata(
    fields: Map<Seq<char>, LogValueView>,
    keys: MetadataKeys,
    received: Tree,
    host: Seq<char>,
    host_name: Seq<char>,
)
    requires
        conforms(fields, event_schema()),
        opt_path(keys.source_type) == Some(seq![SegmentView::Field("source_type"@)]),
        opt_path(keys.timestamp) == Some(seq![SegmentView::Field("timestamp"@)]),
        opt_path(keys.host) == Some(seq![SegmentView::Field(host_name)]),
        !fields.contains_key(host_name),
        host_name != "source_type"@,
        host_name != "timestamp"@,
    ensures
        enriched(event_tree(fields), keys, received, host) == Tree::Object(
            members_of(event_tree(fields)).insert(
                "source_type"@,
                Tree::Text("snmp_trap"@),
            ).insert("timestamp"@, received).insert(host_name, Tree::Text(host)),
        ),
{
    notifications_leave_metadata_fields(fields);
    reveal_strlit("source_type");
    reveal_strlit("timestamp");
    assert("source_type"@.len() != "timestamp"@.len());
    assert forall|name: Seq<char>| #[trigger]
        seq![SegmentView::Field(name)].drop_first() == Seq::<SegmentView>::empty() by {
        assert(seq![SegmentView::Field(name)].drop_first() =~= Seq::empty());
    }
    reveal_with_fuel(tree_at, 2);
    reveal_with_fuel(tree_with, 2);
}

/// What the source announces beside its events is there.
pub proof fn announced_metadata_is_beside_events(
    source_type_key: Option<Seq<SegmentView>>,
    timestamp_key: Option<Seq<SegmentView>>,
    host_key: Option<Seq<SegmentView>>,
    received: Tree,
    host: Seq<char>,
)
    ensures
        forall|i: int|
            0 <= i < source_metadata(
                LogNamespace::Vector,
                source_type_key,
                timestamp_key,
                host_key,
            ).len() ==> tree_at(
                metadata_beside(received, host),
                (#[trigger] source_metadata(
                    LogNamespace::Vector,
                    source_type_key,
                    timestamp_key,
                    host_key,
                )[i]).path,
            ) is Some,
{
    metadata_is_beside_its_event(received, host);
}

} // verus!
