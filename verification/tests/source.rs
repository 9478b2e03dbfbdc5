use bytes::Bytes;
use serde_json::Value;
use snmp_parser::parse_snmp_v2c;
use snmp_parser::snmp::SnmpPdu;
use snmp_trap::config::{
    FieldKind, LogSchema, MetadataField, MetadataPlace, SchemaField, SnmpTrapConfig,
};
use snmp_trap::encode::{
    encode_application_integer, encode_integer_u64, encode_sequence, encode_tlv,
};
use snmp_trap::enrich::{enrich_event, enrich_events, Arrival, Event, LogNamespace};
use snmp_trap::error::{ParseError, PduType};
use snmp_trap::event::{event_value, EventBatch, LogEvent, LogValue};
use snmp_trap::internal_events::{SnmpTrapCommunityNotAllowedError, SnmpTrapParseError};
use snmp_trap::mib::resolver::MibResolver;
use snmp_trap::source::{SnmpTrapSource, SourceAction, SourceEvent, SourceReport, SourceStep};
use snmp_trap::tree::{insert_at, insert_if_empty, path_has_room, PathSegment};
use vrl::path::{parse_value_path, OwnedSegment};

const TEST_MIB: &str = r#"
TEST-MIB DEFINITIONS ::= BEGIN

IMPORTS
    enterprises, OBJECT-TYPE, NOTIFICATION-TYPE
        FROM SNMPv2-SMI;

testRoot OBJECT IDENTIFIER ::= { enterprises 8072 }
testNotifications OBJECT IDENTIFIER ::= { testRoot 2 }
testNotificationPrefix OBJECT IDENTIFIER ::= { testNotifications 3 }
testSpecificNotifications OBJECT IDENTIFIER ::= { testNotificationPrefix 0 }

testTrap NOTIFICATION-TYPE
    OBJECTS { testValue }
    STATUS current
    DESCRIPTION "A test notification."
    ::= { testSpecificNotifications 1 }

testObjects OBJECT IDENTIFIER ::= { testNotifications 4 }
testValue OBJECT-TYPE
    SYNTAX Integer32
    MAX-ACCESS read-only
    STATUS current
    DESCRIPTION "A test value."
    ::= { testObjects 1 }

END
"#;

fn oid(arcs: &[u64]) -> Vec<u8> {
    assert!(arcs.len() >= 2);
    let mut encoded = vec![(arcs[0] * 40 + arcs[1]) as u8];
    for mut arc in arcs.iter().copied().skip(2) {
        let mut stack = vec![(arc & 0x7f) as u8];
        arc >>= 7;
        while arc > 0 {
            stack.push(((arc & 0x7f) as u8) | 0x80);
            arc >>= 7;
        }
        encoded.extend(stack.into_iter().rev());
    }
    encoded
}

fn oid_value(arcs: &[u64]) -> Vec<u8> {
    encode_tlv(0x06, &oid(arcs))
}

fn timeticks(value: u64) -> Vec<u8> {
    encode_application_integer(0x43, value)
}

fn integer(value: u64) -> Vec<u8> {
    encode_integer_u64(value)
}

fn varbind(oid_arcs: &[u64], value: Vec<u8>) -> Vec<u8> {
    let mut content = Vec::new();
    content.extend(oid_value(oid_arcs));
    content.extend(value);
    encode_sequence(&content)
}

fn v2c_message(pdu_type: PduType, request_id: u32, varbinds: Vec<Vec<u8>>) -> Bytes {
    v2c_message_with_request_id(
        pdu_type,
        encode_integer_u64(request_id as u64),
        b"public",
        varbinds,
    )
}

fn v2c_message_with_request_id(
    pdu_type: PduType,
    request_id: Vec<u8>,
    community: &[u8],
    varbinds: Vec<Vec<u8>>,
) -> Bytes {
    let pdu = v2c_pdu(pdu_type, request_id, varbinds);

    let mut message = Vec::new();
    message.extend(encode_integer_u64(1));
    message.extend(encode_tlv(0x04, community));
    message.extend(pdu);

    Bytes::from(encode_sequence(&message))
}

fn v2c_pdu(pdu_type: PduType, request_id: Vec<u8>, varbinds: Vec<Vec<u8>>) -> Vec<u8> {
    let mut varbind_list = Vec::new();
    for varbind in varbinds {
        varbind_list.extend(varbind);
    }

    let mut pdu = Vec::new();
    pdu.extend(request_id);
    pdu.extend(encode_integer_u64(0));
    pdu.extend(encode_integer_u64(0));
    pdu.extend(encode_sequence(&varbind_list));

    encode_tlv(0xa0 | pdu_type.code() as u8, &pdu)
}

fn v2c_notification(pdu_type: PduType) -> Bytes {
    v2c_message(pdu_type, 42, notification_varbinds())
}

fn notification_varbinds() -> Vec<Vec<u8>> {
    let mut varbinds = required_notification_varbinds();
    varbinds.push(varbind(&[1, 3, 6, 1, 4, 1, 8072, 2, 4, 1, 0], integer(7)));
    varbinds
}

fn required_notification_varbinds() -> Vec<Vec<u8>> {
    vec![
        varbind(&[1, 3, 6, 1, 2, 1, 1, 3, 0], timeticks(123_456)),
        varbind(
            &[1, 3, 6, 1, 6, 3, 1, 1, 4, 1, 0],
            oid_value(&[1, 3, 6, 1, 4, 1, 8072, 2, 3, 0, 1]),
        ),
    ]
}

fn text<'a>(log: &'a LogEvent, name: &str) -> &'a str {
    match log.get(name) {
        Some(LogValue::Text(text)) => text,
        other => panic!("expected text in {name}, got {other:?}"),
    }
}

fn number(log: &LogEvent, name: &str) -> i64 {
    match log.get(name) {
        Some(LogValue::Integer(number)) => *number,
        other => panic!("expected a number in {name}, got {other:?}"),
    }
}

fn objects<'a>(log: &'a LogEvent, name: &str) -> &'a [Value] {
    match log.get(name) {
        Some(LogValue::Objects(objects)) => objects,
        other => panic!("expected objects in {name}, got {other:?}"),
    }
}

fn mib_resolver() -> MibResolver {
    MibResolver::with_builtin_symbols()
}

fn received(data: Bytes) -> SourceEvent {
    SourceEvent::Received {
        data,
        peer: "127.0.0.1:1162".to_string(),
    }
}

/// The events that a step hands on.
fn forwarded(step: SourceStep) -> EventBatch {
    match step.action {
        SourceAction::Forward { events, peer } => {
            assert_eq!(peer, "127.0.0.1:1162");
            events
        }
        _ => panic!("the events should be handed on"),
    }
}

fn key(name: &str) -> Option<Vec<PathSegment>> {
    Some(path(&[name]))
}

fn path(names: &[&str]) -> Vec<PathSegment> {
    names
        .iter()
        .map(|name| PathSegment::Field(name.to_string()))
        .collect()
}

fn log_schema() -> LogSchema {
    LogSchema {
        host_key: key("host"),
        source_type_key: key("source_type"),
        timestamp_key: key("timestamp"),
    }
}

fn arrival(number: i64) -> Arrival {
    let mut event = LogEvent::new();
    event.insert("community", LogValue::Text("public".to_string()));
    event.insert("request_id", LogValue::Integer(number));
    Arrival {
        event,
        received: vrl::value::Value::from(1_700_000_000 + number),
    }
}

/// A trap with the metadata that a configuration asks for.
fn enriched_trap(config: &SnmpTrapConfig) -> Event {
    let mut source = SnmpTrapSource::new();
    let step = source.snmp_trap_udp(received(v2c_notification(PduType::TrapV2)), &mib_resolver());
    let arrivals = forwarded(step)
        .into_events()
        .into_iter()
        .map(|event| Arrival {
            event,
            received: vrl::value::Value::from(1_700_000_000),
        })
        .collect();
    let mut events = enrich_events(
        arrivals,
        &config.metadata_keys(&log_schema()),
        config.log_namespace(LogNamespace::Legacy),
        "127.0.0.1",
    );
    assert_eq!(events.len(), 1);
    events.remove(0)
}

/// The value at a path.
fn at<'a>(value: &'a vrl::value::Value, path: &str) -> Option<&'a vrl::value::Value> {
    value.get(&parse_value_path(path).unwrap())
}

fn is_text(value: &vrl::value::Value, path: &str, expected: &str) -> bool {
    at(value, path) == Some(&vrl::value::Value::from(expected))
}

#[test]
fn test_config_default() {
    let config = SnmpTrapConfig::default();
    assert_eq!(config.address, "0.0.0.0:162");
    assert_eq!(config.receive_buffer_bytes, None);
    assert_eq!(config.host_key, None);
    assert!(config.mib_paths.is_empty());
    assert_eq!(config.log_namespace, None);
    assert!(!config.can_acknowledge());
}

#[test]
fn test_udp_source_receives_trap_with_metadata() {
    let event = enriched_trap(&SnmpTrapConfig::default());

    assert!(is_text(&event.value, "snmp_version", "2c"));
    assert!(is_text(&event.value, "pdu_type", "trap_v2"));
    assert!(is_text(&event.value, "source_type", "snmp_trap"));
    assert!(is_text(&event.value, "host", "127.0.0.1"));
    assert_eq!(
        at(&event.value, "timestamp"),
        Some(&vrl::value::Value::from(1_700_000_000))
    );
    assert_eq!(
        event.metadata,
        vrl::value::Value::from(vrl::value::ObjectMap::new())
    );
}

#[test]
fn test_udp_source_uses_custom_host_key() {
    let config = SnmpTrapConfig {
        host_key: Some(key("agent_host")),
        ..SnmpTrapConfig::default()
    };
    let event = enriched_trap(&config);

    assert!(is_text(&event.value, "agent_host", "127.0.0.1"));
    assert!(at(&event.value, "host").is_none());
}

#[test]
fn test_udp_source_can_disable_host_key() {
    let config = SnmpTrapConfig {
        host_key: Some(None),
        ..SnmpTrapConfig::default()
    };
    let event = enriched_trap(&config);

    assert!(at(&event.value, "host").is_none());
}

/// The segments of a path that is written as text.
fn segments(text: &str) -> Vec<PathSegment> {
    parse_value_path(text)
        .unwrap()
        .segments
        .iter()
        .map(|segment| match segment {
            OwnedSegment::Field(name) => PathSegment::Field(name.to_string()),
            OwnedSegment::Index(index) => PathSegment::Index(*index),
        })
        .collect()
}

#[test]
fn metadata_replaces_no_field_of_a_notification() {
    for (host_key, expected) in [
        ("community", "public"),
        (".community", "public"),
        ("varbinds[0].oid", "1.3.6.1.2.1.1.3.0"),
    ] {
        let config = SnmpTrapConfig {
            host_key: Some(Some(segments(host_key))),
            ..SnmpTrapConfig::default()
        };
        let event = enriched_trap(&config);
        assert!(is_text(&event.value, host_key, expected), "{host_key}");
        assert!(event.value.as_object().unwrap().get(".community").is_none());
    }

    let config = SnmpTrapConfig {
        host_key: Some(Some(vec![
            PathSegment::Field("varbinds".to_string()),
            PathSegment::Index(-1),
            PathSegment::Field("oid".to_string()),
        ])),
        ..SnmpTrapConfig::default()
    };
    assert!(is_text(
        &enriched_trap(&config).value,
        "varbinds[2].oid",
        "1.3.6.1.4.1.8072.2.4.1.0"
    ));
}

#[test]
fn host_keys_are_paths() {
    let with_host = |segments: Vec<PathSegment>| {
        enriched_trap(&SnmpTrapConfig {
            host_key: Some(Some(segments)),
            ..SnmpTrapConfig::default()
        })
        .value
    };
    let value = with_host(path(&["peer", "host"]));
    assert!(is_text(&value, "peer.host", "127.0.0.1"));
    assert!(value.as_object().unwrap().get("peer.host").is_none());

    let value = with_host(path(&["peer.host"]));
    assert!(is_text(&value, "\"peer.host\"", "127.0.0.1"));
    assert!(at(&value, "peer").is_none());

    let value = with_host(path(&["community", "host"]));
    assert!(is_text(&value, "community.host", "127.0.0.1"));

    let value = with_host(vec![
        PathSegment::Field("hosts".to_string()),
        PathSegment::Index(1),
    ]);
    assert_eq!(at(&value, "hosts[0]"), Some(&vrl::value::Value::Null));
    assert!(is_text(&value, "hosts[1]", "127.0.0.1"));

    let value = with_host(vec![
        PathSegment::Field("varbinds".to_string()),
        PathSegment::Index(-4),
    ]);
    assert!(is_text(&value, "varbinds[0]", "127.0.0.1"));
    assert!(is_text(&value, "varbinds[1].type", "timeticks"));

    assert_eq!(
        with_host(Vec::new()),
        enriched_trap(&SnmpTrapConfig {
            host_key: Some(None),
            ..SnmpTrapConfig::default()
        })
        .value
    );
}

#[test]
fn keys_fit_where_arrays_do() {
    let config = |position: isize, log_namespace| SnmpTrapConfig {
        host_key: Some(Some(vec![
            PathSegment::Field("hosts".to_string()),
            PathSegment::Index(position),
        ])),
        log_namespace,
        ..SnmpTrapConfig::default()
    };
    for position in [0, -1, 1_000, 5_000_000_000, -5_000_000_000] {
        let config = config(position, None);
        assert!(config.metadata_keys(&log_schema()).fit(), "{position}");
    }
    for position in [isize::MAX, isize::MAX / 8, isize::MIN, isize::MIN / 8] {
        let config = config(position, Some(true));
        assert!(!config.metadata_keys(&log_schema()).fit(), "{position}");
        let event = enriched_trap(&config);
        assert!(at(&event.value, "hosts").is_none());
        assert!(is_text(&event.metadata, "snmp_trap.host", "127.0.0.1"));
    }
    assert!(SnmpTrapConfig::default()
        .metadata_keys(&log_schema())
        .fit());
    assert!(path_has_room(&path(&["a", "b"])));
    assert!(path_has_room(&Vec::new()));
    assert!(!path_has_room(&vec![
        PathSegment::Index(0),
        PathSegment::Index(isize::MIN),
    ]));
}

#[test]
fn metadata_goes_beside_events_of_the_vector_namespace() {
    let config = SnmpTrapConfig {
        log_namespace: Some(true),
        ..SnmpTrapConfig::default()
    };
    let event = enriched_trap(&config);
    assert!(is_text(&event.value, "community", "public"));
    for name in ["source_type", "timestamp", "host"] {
        assert!(at(&event.value, name).is_none(), "{name}");
    }
    assert!(is_text(&event.metadata, "vector.source_type", "snmp_trap"));
    assert_eq!(
        at(&event.metadata, "vector.ingest_timestamp"),
        Some(&vrl::value::Value::from(1_700_000_000))
    );
    assert!(is_text(&event.metadata, "snmp_trap.host", "127.0.0.1"));
    assert_eq!(event.metadata.as_object().unwrap().len(), 2);
}

#[test]
fn configured_namespaces_override_the_global_one() {
    for global in [LogNamespace::Legacy, LogNamespace::Vector] {
        for (configured, expected) in [
            (None, global),
            (Some(false), LogNamespace::Legacy),
            (Some(true), LogNamespace::Vector),
        ] {
            let config = SnmpTrapConfig {
                log_namespace: configured,
                ..SnmpTrapConfig::default()
            };
            assert_eq!(config.log_namespace(global), expected);
        }
    }
}

#[test]
fn each_event_is_enriched() {
    let keys = SnmpTrapConfig::default().metadata_keys(&log_schema());
    let events = enrich_events(
        vec![arrival(1), arrival(2)],
        &keys,
        LogNamespace::Legacy,
        "::1",
    );
    assert_eq!(events.len(), 2);
    for (index, event) in events.iter().enumerate() {
        let number = index as i64 + 1;
        assert_eq!(event.value.as_object().unwrap().len(), 5);
        assert_eq!(
            at(&event.value, "request_id"),
            Some(&vrl::value::Value::from(number))
        );
        assert_eq!(
            at(&event.value, "timestamp"),
            Some(&vrl::value::Value::from(1_700_000_000 + number))
        );
        assert!(is_text(&event.value, "host", "::1"));
    }
    let alone = enrich_event(arrival(2), &keys, LogNamespace::Legacy, "::1");
    assert_eq!(alone.value, events[1].value);
}

#[test]
fn values_are_put_at_paths() {
    let mut value = event_value(arrival(7).event);
    insert_if_empty(
        &mut value,
        &path(&["request_id"]),
        vrl::value::Value::from(8),
    );
    assert_eq!(
        at(&value, "request_id"),
        Some(&vrl::value::Value::from(7))
    );
    insert_at(
        &mut value,
        &path(&["request_id"]),
        vrl::value::Value::from(8),
    );
    assert_eq!(
        at(&value, "request_id"),
        Some(&vrl::value::Value::from(8))
    );
    insert_if_empty(&mut value, &path(&["a", "b"]), vrl::value::Value::Null);
    assert_eq!(at(&value, "a.b"), Some(&vrl::value::Value::Null));
    insert_if_empty(&mut value, &path(&["a", "b"]), vrl::value::Value::from(9));
    assert_eq!(at(&value, "a.b"), Some(&vrl::value::Value::Null));
    insert_at(&mut value, &Vec::new(), vrl::value::Value::from(1));
    assert_eq!(value, vrl::value::Value::from(1));
}

#[test]
fn events_are_nested_values() {
    let mut source = SnmpTrapSource::new();
    let step = source.snmp_trap_udp(received(v2c_notification(PduType::TrapV2)), &mib_resolver());
    for event in forwarded(step).into_events() {
        let value = event_value(event);
        assert!(is_text(&value, "community", "public"));
        assert_eq!(
            at(&value, "request_id"),
            Some(&vrl::value::Value::from(42))
        );
        assert_eq!(
            at(&value, "varbinds").unwrap().as_array().unwrap().len(),
            3
        );
        assert!(is_text(&value, "varbinds[2].value", "7"));
        assert!(is_text(&value, "varbinds[2].type", "integer"));
    }
}

#[test]
fn test_udp_source_acknowledges_inform_request() {
    let mut source = SnmpTrapSource::new();
    let data = v2c_notification(PduType::InformRequest);
    let byte_size = data.len();
    let step = source.snmp_trap_udp(received(data), &mib_resolver());
    assert!(matches!(
        step.reports[..],
        [
            SourceReport::BytesReceived(received),
            SourceReport::EventsReceived(1),
        ] if received == byte_size
    ));
    let events = forwarded(step);
    assert_eq!(text(events.get(0).unwrap(), "pdu_type"), "inform_request");

    let step = source.snmp_trap_udp(SourceEvent::Accepted, &mib_resolver());
    assert!(step.reports.is_empty());
    let response = match step.action {
        SourceAction::Respond { response, peer } => {
            assert_eq!(peer, "127.0.0.1:1162");
            response
        }
        _ => panic!("the inform should be acknowledged"),
    };
    let (_, message) = parse_snmp_v2c(&response).unwrap();
    match message.pdu {
        SnmpPdu::Generic(pdu) => {
            assert_eq!(pdu.pdu_type, snmp_parser::snmp::PduType::Response);
            assert_eq!(pdu.req_id, 42);
            assert_eq!(pdu.err_index, 0);
            assert_eq!(pdu.var.len(), 3);
        }
        other => panic!("expected response PDU, got {other:?}"),
    }

    let step = source.snmp_trap_udp(SourceEvent::Sent(response.len()), &mib_resolver());
    assert!(matches!(step.reports[..], [SourceReport::BytesSent(sent)] if sent == response.len()));
    assert!(matches!(step.action, SourceAction::Receive));
}

#[test]
fn test_udp_source_does_not_ack_when_downstream_is_closed() {
    let mut source = SnmpTrapSource::new();
    let step = source.snmp_trap_udp(
        received(v2c_notification(PduType::InformRequest)),
        &mib_resolver(),
    );
    assert_eq!(forwarded(step).len(), 1);

    let step = source.snmp_trap_udp(SourceEvent::Closed, &mib_resolver());
    assert!(matches!(step.reports[..], [SourceReport::StreamClosed(1)]));
    assert!(matches!(step.action, SourceAction::Stop));
}

#[test]
fn test_udp_source_shutdown_interrupts_downstream_backpressure() {
    let mut source = SnmpTrapSource::new();
    let step = source.snmp_trap_udp(received(v2c_notification(PduType::TrapV2)), &mib_resolver());
    assert_eq!(forwarded(step).len(), 1);

    let step = source.snmp_trap_udp(SourceEvent::Shutdown, &mib_resolver());
    assert!(step.reports.is_empty());
    assert!(matches!(step.action, SourceAction::Stop));
}

#[test]
fn test_udp_source_rejects_malformed_inform_request_without_ack() {
    let mut source = SnmpTrapSource::new();
    let step = source.snmp_trap_udp(
        received(v2c_message(
            PduType::InformRequest,
            42,
            vec![varbind(&[1, 3, 6, 1, 4, 1, 8072, 2, 4, 1, 0], integer(7))],
        )),
        &mib_resolver(),
    );

    match &step.reports[..] {
        [SourceReport::BytesReceived(_), SourceReport::ParseError(report)] => {
            assert_eq!(
                report.error,
                "invalid RFC 3416 SNMPv2 notification: first varbind must be sysUpTime.0"
            );
            assert_eq!(report.error_code, "invalid_v2c_notification");
        }
        _ => panic!("the inform should be refused"),
    }
    assert!(matches!(step.action, SourceAction::Receive));
}

#[test]
fn test_udp_source_resolves_mib_oids() {
    let mut source = SnmpTrapSource::new();
    let step = source.snmp_trap_udp(
        received(v2c_notification(PduType::TrapV2)),
        &MibResolver::from_str(TEST_MIB),
    );
    let events = forwarded(step);
    let log = events.get(0).unwrap();
    assert_eq!(text(log, "trap_oid_name"), "TEST-MIB::testTrap");
    assert_eq!(text(log, "trap_oid_module"), "TEST-MIB");
    assert_eq!(text(log, "trap_oid_symbol"), "testTrap");

    let varbinds = objects(log, "varbinds");
    assert_eq!(
        varbinds[1].get("value_oid_name").unwrap(),
        &Value::from("TEST-MIB::testTrap")
    );
    assert_eq!(
        varbinds[2].get("oid_name").unwrap(),
        &Value::from("TEST-MIB::testValue.0")
    );
    assert_eq!(varbinds[2].get("oid_instance").unwrap(), &Value::from("0"));
}

#[test]
fn traps_are_not_answered() {
    let mut source = SnmpTrapSource::new();
    let step = source.snmp_trap_udp(received(v2c_notification(PduType::TrapV2)), &mib_resolver());
    assert_eq!(number(forwarded(step).get(0).unwrap(), "request_id"), 42);
    let step = source.snmp_trap_udp(SourceEvent::Accepted, &mib_resolver());
    assert!(step.reports.is_empty());
    assert!(matches!(step.action, SourceAction::Receive));
}

#[test]
fn socket_errors_are_reported_and_survived() {
    let mut source = SnmpTrapSource::new();
    let step = source.snmp_trap_udp(
        SourceEvent::ReceiveFailed("broken".to_string()),
        &mib_resolver(),
    );
    assert!(matches!(&step.reports[..], [SourceReport::ReceiveError(error)] if error == "broken"));
    assert!(matches!(step.action, SourceAction::Receive));

    source.snmp_trap_udp(
        received(v2c_notification(PduType::InformRequest)),
        &mib_resolver(),
    );
    source.snmp_trap_udp(SourceEvent::Accepted, &mib_resolver());
    let step = source.snmp_trap_udp(
        SourceEvent::SendFailed("unreachable".to_string()),
        &mib_resolver(),
    );
    assert!(
        matches!(&step.reports[..], [SourceReport::SendError(error)] if error == "unreachable")
    );
    assert!(matches!(step.action, SourceAction::Receive));
}

#[test]
fn received_results_decide_the_step() {
    let mut source = SnmpTrapSource::new();
    let step = source.receive(7, "peer".to_string(), Err(ParseError::TrailingData(3)));
    match &step.reports[..] {
        [SourceReport::BytesReceived(7), SourceReport::ParseError(report)] => {
            assert_eq!(report.error, "SNMP message contained 3 trailing bytes");
            assert_eq!(report.error_code, "trailing_data");
        }
        _ => panic!("the error should be reported"),
    }
    assert!(matches!(step.action, SourceAction::Receive));
}

#[test]
fn schemas_announce_the_fields_of_events() {
    let schema =
        SnmpTrapConfig::default().schema_definition(LogNamespace::Legacy, &log_schema());
    assert_eq!(
        schema.metadata,
        SnmpTrapConfig::default().metadata_fields(LogNamespace::Legacy, &log_schema())
    );
    assert_eq!(schema.fields.len(), 22);
    assert_eq!(schema.varbind_fields.len(), 12);
    assert_eq!(
        schema.fields[0],
        SchemaField {
            name: "snmp_version".to_string(),
            kind: FieldKind::Bytes,
            optional: false,
            meaning: None,
        }
    );
    assert_eq!(
        schema.fields[21],
        SchemaField {
            name: "message".to_string(),
            kind: FieldKind::Bytes,
            optional: false,
            meaning: Some("message"),
        }
    );

    let mut source = SnmpTrapSource::new();
    let step = source.snmp_trap_udp(
        received(v2c_notification(PduType::TrapV2)),
        &MibResolver::from_str(TEST_MIB),
    );
    for event in forwarded(step).into_events() {
        for field in &schema.fields {
            match (event.get(&field.name), field.kind) {
                (None, _) => assert!(field.optional, "{} is missing", field.name),
                (Some(LogValue::Text(_)), FieldKind::Bytes) => (),
                (Some(LogValue::Integer(_)), FieldKind::Integer) => (),
                (Some(LogValue::Objects(_)), FieldKind::Objects) => (),
                (Some(other), _) => panic!("{} holds {other:?}", field.name),
            }
        }
        for (name, _) in event.into_fields() {
            assert!(schema.fields.iter().any(|field| field.name == name), "{name}");
        }
    }
}

#[test]
fn schemas_announce_the_metadata_of_events() {
    let announced = |place: MetadataPlace, path, kind, meaning| MetadataField {
        place,
        path,
        kind,
        meaning,
    };
    let config = SnmpTrapConfig {
        host_key: Some(Some(path(&["peer", "host"]))),
        ..SnmpTrapConfig::default()
    };
    let among = MetadataPlace::Event;
    assert_eq!(
        config.metadata_fields(LogNamespace::Legacy, &log_schema()),
        vec![
            announced(among, path(&["source_type"]), FieldKind::Bytes, None),
            announced(among, path(&["timestamp"]), FieldKind::Timestamp, None),
            announced(among, path(&["peer", "host"]), FieldKind::Bytes, Some("host")),
        ]
    );
    let beside = MetadataPlace::Beside;
    assert_eq!(
        config
            .schema_definition(LogNamespace::Vector, &log_schema())
            .metadata,
        vec![
            announced(beside, path(&["vector", "source_type"]), FieldKind::Bytes, None),
            announced(
                beside,
                path(&["vector", "ingest_timestamp"]),
                FieldKind::Timestamp,
                None,
            ),
            announced(beside, path(&["snmp_trap", "host"]), FieldKind::Bytes, Some("host")),
        ]
    );

    let config = SnmpTrapConfig {
        host_key: Some(None),
        ..SnmpTrapConfig::default()
    };
    let no_keys = LogSchema {
        host_key: key("host"),
        source_type_key: None,
        timestamp_key: None,
    };
    assert_eq!(
        config.metadata_fields(LogNamespace::Legacy, &no_keys),
        vec![]
    );
    assert_eq!(
        SnmpTrapConfig::default()
            .metadata_fields(LogNamespace::Legacy, &no_keys)
            .len(),
        1
    );
}

#[test]
fn events_hold_one_value_per_field() {
    let mut log = LogEvent::new();
    log.insert("a", LogValue::Integer(1));
    log.insert("b", LogValue::Integer(2));
    log.insert("a", LogValue::Integer(3));
    log.insert("c", LogValue::Integer(5));
    assert_eq!(number(&log, "a"), 3);
    assert_eq!(number(&log, "b"), 2);
    assert_eq!(number(&log, "c"), 5);
    assert!(log.get("d").is_none());
    assert_eq!(log.into_fields().len(), 3);
}

#[test]
fn internal_events_carry_codes() {
    let report = SnmpTrapParseError::new(&ParseError::InvalidPduType(PduType::GetRequest));
    assert_eq!(
        report.error,
        "invalid PDU type for SNMP notification: GetRequest"
    );
    assert_eq!(report.error_code, "invalid_pdu_type");
    let report = SnmpTrapCommunityNotAllowedError {
        peer_addr: "127.0.0.1:1162".to_string(),
    };
    assert_eq!(report.error_code(), "community_not_allowed");
}

#[test]
fn sources_tell_what_they_await() {
    let mut source = SnmpTrapSource::new();
    assert!(source.awaits(&SourceEvent::ReceiveFailed(String::new())));
    assert!(!source.awaits(&SourceEvent::Accepted));
    source.snmp_trap_udp(
        received(v2c_notification(PduType::InformRequest)),
        &mib_resolver(),
    );
    assert!(source.awaits(&SourceEvent::Accepted));
    assert!(!source.awaits(&SourceEvent::Sent(1)));
    source.snmp_trap_udp(SourceEvent::Accepted, &mib_resolver());
    assert!(source.awaits(&SourceEvent::Sent(1)));
    assert!(source.awaits(&SourceEvent::Shutdown));
    source.snmp_trap_udp(SourceEvent::Shutdown, &mib_resolver());
    assert!(!source.awaits(&SourceEvent::Shutdown));
}
