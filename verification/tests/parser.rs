use bytes::Bytes;
use serde_json::Value;
use snmp_parser::parse_snmp_v2c;
use snmp_parser::snmp::{ErrorStatus, SnmpPdu};
use snmp_trap::encode::{
    encode_application_integer, encode_identifier, encode_integer_i64, encode_integer_u64,
    encode_length, encode_sequence, encode_tlv,
};
use snmp_trap::error::{ParseError, PduType};
use snmp_trap::event::{LogEvent, LogValue};
use snmp_trap::mib::resolver::MibResolver;
use snmp_trap::model::{NetworkAddress, ObjectValue};
use snmp_trap::notification::{parse_snmp_trap, ParsedSnmpNotification};
use snmp_trap::response::MAX_SNMP_MESSAGE_SIZE;
use snmp_trap::varbind::{format_object_value, formatted_value, FormattedVarbindValue};

fn source_addr() -> &'static str {
    "127.0.0.1:1162"
}

fn mib_resolver() -> MibResolver {
    MibResolver::with_builtin_symbols()
}

fn oid(arcs: &[u64]) -> Vec<u8> {
    assert!(arcs.len() >= 2);
    let mut encoded = vec![(arcs[0] * 40 + arcs[1]) as u8];
    for mut arc in arcs.iter().copied().skip(2) {
        let mut stack = vec![(arc & 0x7f) as u8];
        arc >>= 7;
        while arc > 0 {
            stack.push(((arc & 0x7f) as u8) | 0x80);
            arc >>= 7;
        }
        encoded.extend(stack.into_iter().rev());
    }
    encoded
}

fn oid_value(arcs: &[u64]) -> Vec<u8> {
    encode_tlv(0x06, &oid(arcs))
}

fn timeticks(value: u64) -> Vec<u8> {
    encode_application_integer(0x43, value)
}

fn integer(value: u64) -> Vec<u8> {
    encode_integer_u64(value)
}

fn signed_integer(value: i64) -> Vec<u8> {
    encode_integer_i64(value)
}

fn octet_string(value: &[u8]) -> Vec<u8> {
    encode_tlv(0x04, value)
}

fn null() -> Vec<u8> {
    encode_tlv(0x05, &[])
}

fn opaque(value: &[u8]) -> Vec<u8> {
    encode_tlv(0x44, value)
}

fn high_tag_application(tag: u32, value: &[u8]) -> Vec<u8> {
    let mut encoded = Vec::new();
    encode_identifier(1, false, tag, &mut encoded);
    encode_length(value.len(), &mut encoded);
    encoded.extend(value);
    encoded
}

fn varbind(oid_arcs: &[u64], value: Vec<u8>) -> Vec<u8> {
    let mut content = Vec::new();
    content.extend(oid_value(oid_arcs));
    content.extend(value);
    encode_sequence(&content)
}

fn v2c_message(pdu_type: PduType, request_id: u32, varbinds: Vec<Vec<u8>>) -> Bytes {
    v2c_message_with_request_id(
        pdu_type,
        encode_integer_u64(request_id as u64),
        b"public",
        varbinds,
    )
}

fn v2c_message_with_request_id(
    pdu_type: PduType,
    request_id: Vec<u8>,
    community: &[u8],
    varbinds: Vec<Vec<u8>>,
) -> Bytes {
    let pdu = v2c_pdu(pdu_type, request_id, varbinds);

    let mut message = Vec::new();
    message.extend(encode_integer_u64(1));
    message.extend(encode_tlv(0x04, community));
    message.extend(pdu);

    Bytes::from(encode_sequence(&message))
}

fn v2c_pdu(pdu_type: PduType, request_id: Vec<u8>, varbinds: Vec<Vec<u8>>) -> Vec<u8> {
    let mut varbind_list = Vec::new();
    for varbind in varbinds {
        varbind_list.extend(varbind);
    }

    let mut pdu = Vec::new();
    pdu.extend(request_id);
    pdu.extend(encode_integer_u64(0));
    pdu.extend(encode_integer_u64(0));
    pdu.extend(encode_sequence(&varbind_list));

    encode_tlv(0xa0 | pdu_type.code() as u8, &pdu)
}

fn v2c_notification(pdu_type: PduType) -> Bytes {
    v2c_message(pdu_type, 42, notification_varbinds())
}

fn notification_varbinds() -> Vec<Vec<u8>> {
    let mut varbinds = required_notification_varbinds();
    varbinds.push(varbind(&[1, 3, 6, 1, 4, 1, 8072, 2, 4, 1, 0], integer(7)));
    varbinds
}

fn required_notification_varbinds() -> Vec<Vec<u8>> {
    vec![
        varbind(&[1, 3, 6, 1, 2, 1, 1, 3, 0], timeticks(123_456)),
        varbind(
            &[1, 3, 6, 1, 6, 3, 1, 1, 4, 1, 0],
            oid_value(&[1, 3, 6, 1, 4, 1, 8072, 2, 3, 0, 1]),
        ),
    ]
}

fn v1_trap() -> Bytes {
    v1_trap_with_generic_trap(integer(6))
}

fn v1_trap_with_generic_trap(generic_trap: Vec<u8>) -> Bytes {
    let mut pdu = Vec::new();
    pdu.extend(oid_value(&[1, 3, 6, 1, 4, 1, 8072, 2, 3, 0, 1]));
    pdu.extend(encode_tlv(0x40, &[192, 168, 1, 100]));
    pdu.extend(generic_trap);
    pdu.extend(encode_integer_u64(1));
    pdu.extend(timeticks(123_456));
    pdu.extend(encode_sequence(&[]));

    let mut message = Vec::new();
    message.extend(encode_integer_u64(0));
    message.extend(encode_tlv(0x04, b"public"));
    message.extend(encode_tlv(0xa4, &pdu));

    Bytes::from(encode_sequence(&message))
}

fn v3_trap() -> Bytes {
    let mut header = Vec::new();
    header.extend(integer(1));
    header.extend(integer(MAX_SNMP_MESSAGE_SIZE as u64));
    header.extend(octet_string(&[0]));
    header.extend(integer(1));

    let mut scoped_pdu = Vec::new();
    scoped_pdu.extend(octet_string(&[]));
    scoped_pdu.extend(octet_string(&[]));
    scoped_pdu.extend(v2c_pdu(
        PduType::TrapV2,
        integer(42),
        vec![
            varbind(&[1, 3, 6, 1, 2, 1, 1, 3, 0], timeticks(123_456)),
            varbind(
                &[1, 3, 6, 1, 6, 3, 1, 1, 4, 1, 0],
                oid_value(&[1, 3, 6, 1, 6, 3, 1, 1, 5, 1]),
            ),
        ],
    ));

    let mut message = Vec::new();
    message.extend(integer(3));
    message.extend(encode_sequence(&header));
    message.extend(octet_string(&[]));
    message.extend(encode_sequence(&scoped_pdu));

    Bytes::from(encode_sequence(&message))
}

fn log(parsed: &ParsedSnmpNotification) -> &LogEvent {
    assert_eq!(parsed.events.len(), 1);
    parsed.events.get(0).unwrap()
}

fn text<'a>(log: &'a LogEvent, name: &str) -> &'a str {
    match log.get(name) {
        Some(LogValue::Text(text)) => text,
        other => panic!("expected text in {name}, got {other:?}"),
    }
}

fn number(log: &LogEvent, name: &str) -> i64 {
    match log.get(name) {
        Some(LogValue::Integer(number)) => *number,
        other => panic!("expected a number in {name}, got {other:?}"),
    }
}

fn objects<'a>(log: &'a LogEvent, name: &str) -> &'a [Value] {
    match log.get(name) {
        Some(LogValue::Objects(objects)) => objects,
        other => panic!("expected objects in {name}, got {other:?}"),
    }
}

#[test]
fn test_format_object_value() {
    assert_eq!(
        format_object_value(&ObjectValue::String(b"test".to_vec())),
        FormattedVarbindValue {
            value_type: "octet_string",
            value: "test".to_string(),
            value_bytes_hex: Some("74657374".to_string()),
        }
    );
    assert_eq!(
        format_object_value(&ObjectValue::Counter32(100)),
        formatted_value("counter32", "100".to_string())
    );
    assert_eq!(
        format_object_value(&ObjectValue::Gauge32(200)),
        formatted_value("gauge32", "200".to_string())
    );
    assert_eq!(
        format_object_value(&ObjectValue::TimeTicks(300)),
        formatted_value("timeticks", "300".to_string())
    );
    assert_eq!(
        format_object_value(&ObjectValue::Counter64(400)),
        formatted_value("counter64", "400".to_string())
    );
    assert_eq!(
        format_object_value(&ObjectValue::UInteger32(500)),
        formatted_value("unsigned32", "500".to_string())
    );
    assert_eq!(
        format_object_value(&ObjectValue::Empty),
        formatted_value("empty", "empty".to_string())
    );
    assert_eq!(
        format_object_value(&ObjectValue::IpAddress(NetworkAddress::IPv4(
            192, 168, 1, 1
        ))),
        formatted_value("ip_address", "192.168.1.1".to_string())
    );
}

#[test]
fn test_parse_v1_trap() {
    let parsed = parse_snmp_trap(&v1_trap(), source_addr(), &mib_resolver()).unwrap();
    assert!(parsed.response.is_none());

    let log = log(&parsed);
    assert_eq!(text(log, "snmp_version"), "1");
    assert_eq!(text(log, "pdu_type"), "trap_v1");
    assert_eq!(text(log, "enterprise_oid"), "1.3.6.1.4.1.8072.2.3.0.1");
    assert_eq!(text(log, "agent_address"), "192.168.1.100");
    assert_eq!(number(log, "generic_trap"), 6);
    assert_eq!(text(log, "generic_trap_name"), "enterpriseSpecific");
    assert_eq!(number(log, "uptime"), 123_456);
}

#[test]
fn test_parse_v1_trap_rejects_unknown_generic_trap() {
    let result = parse_snmp_trap(
        &v1_trap_with_generic_trap(integer(7)),
        source_addr(),
        &mib_resolver(),
    );
    assert!(matches!(result, Err(ParseError::InvalidV1Trap(_))));
}

#[test]
fn test_parse_v1_trap_rejects_wrapped_generic_trap() {
    let result = parse_snmp_trap(
        &v1_trap_with_generic_trap(integer(256)),
        source_addr(),
        &mib_resolver(),
    );
    assert!(matches!(result, Err(ParseError::InvalidV1Trap(_))));
}

#[test]
fn test_parse_v1_trap_with_mib_resolution() {
    let resolver = MibResolver::from_str(TEST_MIB);
    let parsed = parse_snmp_trap(&v1_trap(), source_addr(), &resolver).unwrap();

    let log = log(&parsed);
    assert_eq!(text(log, "enterprise_oid_name"), "TEST-MIB::testTrap");
    assert_eq!(text(log, "enterprise_oid_module"), "TEST-MIB");
    assert_eq!(text(log, "enterprise_oid_symbol"), "testTrap");
}

#[test]
fn test_parse_v2c_trap() {
    let parsed = parse_snmp_trap(
        &v2c_notification(PduType::TrapV2),
        source_addr(),
        &mib_resolver(),
    )
    .unwrap();
    assert!(parsed.response.is_none());

    let log = log(&parsed);
    assert_eq!(text(log, "snmp_version"), "2c");
    assert_eq!(text(log, "pdu_type"), "trap_v2");
    assert_eq!(number(log, "request_id"), 42);
    assert_eq!(number(log, "uptime"), 123_456);
    assert_eq!(text(log, "trap_oid"), "1.3.6.1.4.1.8072.2.3.0.1");
    assert!(log.get("trap_oid_name").is_none());

    let varbinds = objects(log, "varbinds");
    assert_eq!(varbinds.len(), 3);
    assert_eq!(varbinds[0].get("type").unwrap(), &Value::from("timeticks"));
    assert_eq!(varbinds[2].get("type").unwrap(), &Value::from("integer"));
}

#[test]
fn test_parse_v2c_trap_with_mib_resolution() {
    let resolver = MibResolver::from_str(TEST_MIB);
    let parsed =
        parse_snmp_trap(&v2c_notification(PduType::TrapV2), source_addr(), &resolver).unwrap();

    let log = log(&parsed);
    assert_eq!(text(log, "trap_oid_name"), "TEST-MIB::testTrap");
    assert_eq!(text(log, "trap_oid_module"), "TEST-MIB");
    assert_eq!(text(log, "trap_oid_symbol"), "testTrap");

    let varbinds = objects(log, "varbinds");
    assert_eq!(
        varbinds[0].get("oid_name").unwrap(),
        &Value::from("SNMPv2-MIB::sysUpTime.0")
    );
    assert_eq!(
        varbinds[1].get("value_oid_name").unwrap(),
        &Value::from("TEST-MIB::testTrap")
    );
    assert_eq!(
        varbinds[2].get("oid_name").unwrap(),
        &Value::from("TEST-MIB::testValue.0")
    );
    assert_eq!(varbinds[2].get("oid_instance").unwrap(), &Value::from("0"));
}

#[test]
fn test_parse_v2c_inform_builds_response() {
    let parsed = parse_snmp_trap(
        &v2c_notification(PduType::InformRequest),
        source_addr(),
        &mib_resolver(),
    )
    .unwrap();
    let response = parsed.response.expect("inform should produce a response");

    let (_, response) = parse_snmp_v2c(&response).unwrap();
    assert_eq!(response.community, "public");
    match response.pdu {
        SnmpPdu::Generic(pdu) => {
            assert_eq!(pdu.pdu_type, snmp_parser::snmp::PduType::Response);
            assert_eq!(pdu.req_id, 42);
            assert_eq!(pdu.err, ErrorStatus::NoError);
            assert_eq!(pdu.err_index, 0);
            assert_eq!(pdu.var.len(), 3);
        }
        other => panic!("expected response PDU, got {other:?}"),
    }
}

#[test]
fn test_parse_v2c_inform_preserves_negative_request_id() {
    let parsed = parse_snmp_trap(
        &v2c_message_with_request_id(
            PduType::InformRequest,
            signed_integer(-1),
            b"public",
            notification_varbinds(),
        ),
        source_addr(),
        &mib_resolver(),
    )
    .unwrap();

    assert_eq!(number(log(&parsed), "request_id"), -1);
    let response = parsed.response.expect("inform should produce a response");
    assert!(
        response
            .windows([0x02, 0x01, 0xff].len())
            .any(|window| window == [0x02, 0x01, 0xff]),
        "response should echo request-id -1 using the original signed BER integer"
    );
}

#[test]
fn test_parse_v2c_inform_rejects_positive_request_id_outside_integer32() {
    let result = parse_snmp_trap(
        &v2c_message_with_request_id(
            PduType::InformRequest,
            encode_tlv(0x02, &[0x00, 0x80, 0x00, 0x00, 0x00]),
            b"public",
            notification_varbinds(),
        ),
        source_addr(),
        &mib_resolver(),
    );
    assert!(matches!(result, Err(ParseError::InvalidRequestId(_))));
}

#[test]
fn test_parse_v2c_inform_too_big_response() {
    let oversized_value = vec![b'x'; MAX_SNMP_MESSAGE_SIZE];
    let parsed = parse_snmp_trap(
        &v2c_message(
            PduType::InformRequest,
            42,
            vec![
                varbind(&[1, 3, 6, 1, 2, 1, 1, 3, 0], timeticks(123_456)),
                varbind(
                    &[1, 3, 6, 1, 6, 3, 1, 1, 4, 1, 0],
                    oid_value(&[1, 3, 6, 1, 4, 1, 8072, 2, 3, 0, 1]),
                ),
                varbind(
                    &[1, 3, 6, 1, 4, 1, 8072, 2, 4, 1, 0],
                    octet_string(&oversized_value),
                ),
            ],
        ),
        source_addr(),
        &mib_resolver(),
    )
    .unwrap();
    let response = parsed
        .response
        .expect("inform should produce a tooBig response");

    let (_, response) = parse_snmp_v2c(&response).unwrap();
    match response.pdu {
        SnmpPdu::Generic(pdu) => {
            assert_eq!(pdu.pdu_type, snmp_parser::snmp::PduType::Response);
            assert_eq!(pdu.req_id, 42);
            assert_eq!(pdu.err, ErrorStatus::TooBig);
            assert_eq!(pdu.err_index, 0);
            assert!(pdu.var.is_empty());
        }
        other => panic!("expected response PDU, got {other:?}"),
    }
}

#[test]
fn test_parse_v2c_inform_drops_too_big_response_when_alternate_is_too_large() {
    let community = vec![b'x'; MAX_SNMP_MESSAGE_SIZE];
    let parsed = parse_snmp_trap(
        &v2c_message_with_request_id(
            PduType::InformRequest,
            integer(42),
            &community,
            required_notification_varbinds(),
        ),
        source_addr(),
        &mib_resolver(),
    )
    .unwrap();

    assert!(parsed.response.is_none());
}

#[test]
fn test_parse_v2c_exception_varbind_values() {
    let parsed = parse_snmp_trap(
        &v2c_message(
            PduType::TrapV2,
            42,
            vec![
                varbind(&[1, 3, 6, 1, 2, 1, 1, 3, 0], timeticks(123_456)),
                varbind(
                    &[1, 3, 6, 1, 6, 3, 1, 1, 4, 1, 0],
                    oid_value(&[1, 3, 6, 1, 6, 3, 1, 1, 5, 1]),
                ),
                varbind(&[1, 3, 6, 1, 2, 1, 1, 99, 0], encode_tlv(0x80, &[])),
                varbind(&[1, 3, 6, 1, 2, 1, 1, 100, 0], encode_tlv(0x81, &[])),
                varbind(&[1, 3, 6, 1, 2, 1, 1, 101, 0], encode_tlv(0x82, &[])),
            ],
        ),
        source_addr(),
        &mib_resolver(),
    )
    .unwrap();

    let varbinds = objects(log(&parsed), "varbinds");
    assert_eq!(
        varbinds[2].get("type").unwrap(),
        &Value::from("no_such_object")
    );
    assert_eq!(
        varbinds[3].get("type").unwrap(),
        &Value::from("no_such_instance")
    );
    assert_eq!(
        varbinds[4].get("type").unwrap(),
        &Value::from("end_of_mib_view")
    );
}

#[test]
fn test_parse_v2c_binary_values_include_hex() {
    let parsed = parse_snmp_trap(
        &v2c_message(
            PduType::TrapV2,
            42,
            vec![
                varbind(&[1, 3, 6, 1, 2, 1, 1, 3, 0], timeticks(123_456)),
                varbind(
                    &[1, 3, 6, 1, 6, 3, 1, 1, 4, 1, 0],
                    oid_value(&[1, 3, 6, 1, 6, 3, 1, 1, 5, 1]),
                ),
                varbind(
                    &[1, 3, 6, 1, 2, 1, 2, 2, 1, 6, 1],
                    octet_string(&[0, 0x11, 0x22, 0xaa, 0xbb, 0xcc]),
                ),
                varbind(&[1, 3, 6, 1, 2, 1, 1, 102, 0], opaque(&[0xde, 0xad])),
            ],
        ),
        source_addr(),
        &mib_resolver(),
    )
    .unwrap();

    let varbinds = objects(log(&parsed), "varbinds");
    assert_eq!(
        varbinds[2].get("value").unwrap(),
        &Value::from("001122aabbcc")
    );
    assert_eq!(
        varbinds[2].get("value_bytes_hex").unwrap(),
        &Value::from("001122aabbcc")
    );
    assert_eq!(varbinds[3].get("value").unwrap(), &Value::from("dead"));
    assert_eq!(
        varbinds[3].get("value_bytes_hex").unwrap(),
        &Value::from("dead")
    );
}

#[test]
fn test_parse_v2c_requires_notification_oids() {
    let result = parse_snmp_trap(
        &v2c_message(
            PduType::TrapV2,
            42,
            vec![varbind(&[1, 3, 6, 1, 4, 1, 8072, 2, 4, 1, 0], integer(7))],
        ),
        source_addr(),
        &mib_resolver(),
    );
    assert!(matches!(
        result,
        Err(ParseError::InvalidV2cNotification(
            "first varbind must be sysUpTime.0"
        ))
    ));
}

#[test]
fn test_parse_v2c_rejects_wrong_notification_oid_order() {
    let result = parse_snmp_trap(
        &v2c_message(
            PduType::InformRequest,
            42,
            vec![
                varbind(
                    &[1, 3, 6, 1, 6, 3, 1, 1, 4, 1, 0],
                    oid_value(&[1, 3, 6, 1, 6, 3, 1, 1, 5, 1]),
                ),
                varbind(&[1, 3, 6, 1, 2, 1, 1, 3, 0], timeticks(123_456)),
            ],
        ),
        source_addr(),
        &mib_resolver(),
    );
    assert!(matches!(
        result,
        Err(ParseError::InvalidV2cNotification(
            "first varbind must be sysUpTime.0"
        ))
    ));
}

#[test]
fn test_parse_v2c_rejects_wrong_notification_value_types() {
    let result = parse_snmp_trap(
        &v2c_message(
            PduType::TrapV2,
            42,
            vec![
                varbind(&[1, 3, 6, 1, 2, 1, 1, 3, 0], integer(123_456)),
                varbind(
                    &[1, 3, 6, 1, 6, 3, 1, 1, 4, 1, 0],
                    oid_value(&[1, 3, 6, 1, 6, 3, 1, 1, 5, 1]),
                ),
            ],
        ),
        source_addr(),
        &mib_resolver(),
    );
    assert!(matches!(
        result,
        Err(ParseError::InvalidV2cNotification(
            "sysUpTime.0 varbind must contain TimeTicks"
        ))
    ));
}

#[test]
fn test_parse_v2c_inform_preserves_high_tag_unknown_varbinds() {
    let parsed = parse_snmp_trap(
        &v2c_message(
            PduType::InformRequest,
            42,
            vec![
                varbind(&[1, 3, 6, 1, 2, 1, 1, 3, 0], timeticks(123_456)),
                varbind(
                    &[1, 3, 6, 1, 6, 3, 1, 1, 4, 1, 0],
                    oid_value(&[1, 3, 6, 1, 6, 3, 1, 1, 5, 1]),
                ),
                varbind(
                    &[1, 3, 6, 1, 2, 1, 1, 103, 0],
                    high_tag_application(31, &[0xab, 0xcd]),
                ),
            ],
        ),
        source_addr(),
        &mib_resolver(),
    )
    .unwrap();

    let response = parsed.response.expect("inform should produce a response");
    assert!(
        response
            .windows([0x5f, 0x1f, 0x02, 0xab, 0xcd].len())
            .any(|window| window == [0x5f, 0x1f, 0x02, 0xab, 0xcd])
    );
}

#[test]
fn test_parse_v2c_get_request_rejected() {
    let result = parse_snmp_trap(
        &v2c_message(
            PduType::GetRequest,
            42,
            vec![varbind(&[1, 3, 6, 1, 2, 1, 1, 1, 0], null())],
        ),
        source_addr(),
        &mib_resolver(),
    );
    assert!(matches!(
        result,
        Err(ParseError::InvalidPduType(PduType::GetRequest))
    ));
}

#[test]
fn test_parse_trailing_data_rejected() {
    let mut data = v2c_notification(PduType::TrapV2).to_vec();
    data.push(0);
    let result = parse_snmp_trap(&Bytes::from(data), source_addr(), &mib_resolver());
    assert!(matches!(result, Err(ParseError::TrailingData(1))));
}

#[test]
fn test_parse_v3_rejected() {
    let error = parse_snmp_trap(&v3_trap(), source_addr(), &mib_resolver()).unwrap_err();
    assert!(matches!(error, ParseError::UnsupportedVersion(_)));
    assert_eq!(error.error_code(), "unsupported_version");
}

#[test]
fn test_parse_invalid_data() {
    let data = Bytes::from("invalid data");
    let result = parse_snmp_trap(&data, source_addr(), &mib_resolver());
    assert!(result.is_err());
}

#[test]
fn test_parse_empty_data() {
    let data = Bytes::from("");
    let result = parse_snmp_trap(&data, source_addr(), &mib_resolver());
    assert!(result.is_err());
}

const TEST_MIB: &str = r#"
TEST-MIB DEFINITIONS ::= BEGIN

IMPORTS
    enterprises, OBJECT-TYPE, NOTIFICATION-TYPE
        FROM SNMPv2-SMI;

testRoot OBJECT IDENTIFIER ::= { enterprises 8072 }
testNotifications OBJECT IDENTIFIER ::= { testRoot 2 }
testNotificationPrefix OBJECT IDENTIFIER ::= { testNotifications 3 }
testSpecificNotifications OBJECT IDENTIFIER ::= { testNotificationPrefix 0 }

testTrap NOTIFICATION-TYPE
    OBJECTS { testValue }
    STATUS current
    DESCRIPTION "A test notification."
    ::= { testSpecificNotifications 1 }

testObjects OBJECT IDENTIFIER ::= { testNotifications 4 }
testValue OBJECT-TYPE
    SYNTAX Integer32
    MAX-ACCESS read-only
    STATUS current
    DESCRIPTION "A test value."
    ::= { testObjects 1 }

END
"#;
