use bytes::Bytes;
use serde_json::Value;
use snmp_trap::ber::{decode_ber_integer_i64, read_ber_length, read_tlv_at};
use snmp_trap::encode::{
    encode_application_integer, encode_ber_value, encode_identifier, encode_integer_i64,
    encode_integer_u64, encode_length, encode_sequence, encode_tlv,
    encode_unsigned_integer_content,
};
use snmp_trap::error::{malformed, ParseError, PduType};
use snmp_trap::event::{LogEvent, LogValue};
use snmp_trap::mib::resolver::{MibResolver, OidResolution};
use snmp_trap::model::{
    BoundValue, Message, NetworkAddress, ObjectId, ObjectValue, SnmpGenericPdu, SnmpPdu,
    SnmpTrapPdu, TagClass, UnknownValue, Variable,
};
use snmp_trap::notification::{
    finish_v1, finish_v2c, insert_oid_resolution, parse_snmp_trap, parse_v1_trap,
    parse_v2c_notification, trap_type_name, unparsed_error, validate_v2c_notification_varbinds,
};
use snmp_trap::raw::{
    ensure_consumed, patch_negative_v2c_request_id, raw_message_fields, raw_v1_generic_trap,
    raw_v2c_request_id, validate_request_id,
};
use snmp_trap::response::{
    build_inform_response, build_v2c_response, encode_object_value, encode_varbind_list,
    encode_varbind_value, MAX_SNMP_MESSAGE_SIZE,
};
use snmp_trap::text::{parse_u32, render_decimal, render_numeral, render_signed};
use snmp_trap::varbind::{
    bytes_to_hex, format_object_value, format_unknown_value, format_varbind_value,
    format_varbinds, formatted_bytes_value, insert_json_oid_resolution, insert_json_resolution,
    printable_utf8,
};
use snmp_trap::wire::{parse_snmp_v1, parse_snmp_v2c};

const UP_TIME: [u8; 8] = [0x2b, 6, 1, 2, 1, 1, 3, 0];
const TRAP_OID: [u8; 10] = [0x2b, 6, 1, 6, 3, 1, 1, 4, 1, 0];
const COLD_START: [u8; 9] = [0x2b, 6, 1, 6, 3, 1, 1, 5, 1];

fn object_id(bytes: &[u8], text: &str) -> ObjectId {
    ObjectId {
        bytes: bytes.to_vec(),
        text: text.to_string(),
    }
}

fn up_time(val: BoundValue) -> Variable {
    Variable {
        oid: object_id(&UP_TIME, "1.3.6.1.2.1.1.3.0"),
        val,
    }
}

fn trap_oid(val: BoundValue) -> Variable {
    Variable {
        oid: object_id(&TRAP_OID, "1.3.6.1.6.3.1.1.4.1.0"),
        val,
    }
}

fn cold_start() -> BoundValue {
    BoundValue::Value(ObjectValue::Object(object_id(
        &COLD_START,
        "1.3.6.1.6.3.1.1.5.1",
    )))
}

fn ticks(value: u32) -> BoundValue {
    BoundValue::Value(ObjectValue::TimeTicks(value))
}

fn generic(pdu_type: PduType, var: Vec<Variable>) -> SnmpGenericPdu {
    SnmpGenericPdu { pdu_type, var }
}

fn concat(parts: &[Vec<u8>]) -> Vec<u8> {
    parts.concat()
}

fn message(version: u64, pdu: Vec<u8>) -> Vec<u8> {
    encode_sequence(&concat(&[
        encode_integer_u64(version),
        encode_tlv(0x04, b"public"),
        pdu,
    ]))
}

fn v2c(tag: u8, request_id: Vec<u8>) -> Vec<u8> {
    let varbinds = concat(&[
        encode_sequence(&concat(&[
            encode_tlv(0x06, &UP_TIME),
            encode_application_integer(0x43, 1),
        ])),
        encode_sequence(&concat(&[
            encode_tlv(0x06, &TRAP_OID),
            encode_tlv(0x06, &COLD_START),
        ])),
    ]);
    message(
        1,
        encode_tlv(
            tag,
            &concat(&[
                request_id,
                encode_integer_u64(0),
                encode_integer_u64(0),
                encode_sequence(&varbinds),
            ]),
        ),
    )
}

fn resolver() -> MibResolver {
    MibResolver::with_builtin_symbols()
}

fn code<T>(result: Result<T, ParseError>) -> &'static str {
    match result {
        Ok(_) => "ok",
        Err(error) => error.error_code(),
    }
}

fn sentence<T>(result: Result<T, ParseError>) -> String {
    match result {
        Ok(_) => "ok".to_string(),
        Err(error) => error.message(),
    }
}

#[test]
fn lengths_are_encoded_and_read_back() {
    for (length, octets) in [
        (0, vec![0x00]),
        (127, vec![0x7f]),
        (128, vec![0x81, 0x80]),
        (256, vec![0x82, 0x01, 0x00]),
        (65_507, vec![0x82, 0xff, 0xe3]),
    ] {
        let mut output = vec![0xaa];
        encode_length(length, &mut output);
        assert_eq!(output[1..], octets[..]);
        assert_eq!(read_ber_length(&output, 1).unwrap(), (length, output.len()));
    }
}

#[test]
fn broken_lengths_are_refused() {
    for (data, expected) in [
        (vec![], "truncated BER length"),
        (vec![0x82, 0x01], "truncated BER length"),
        (vec![0x80], "unsupported BER length encoding"),
        (vec![0x89], "unsupported BER length encoding"),
    ] {
        assert_eq!(
            sentence(read_ber_length(&data, 0)),
            format!("failed to parse SNMP message: {expected}")
        );
    }
    assert_eq!(read_ber_length(&[0x82, 0x00, 0x05], 0).unwrap(), (5, 3));
}

#[test]
fn values_are_encoded_and_read_back() {
    let content = vec![7; 300];
    let encoded = encode_tlv(0x04, &content);
    let tlv = read_tlv_at(&encoded, 0).unwrap();
    assert_eq!(tlv.tag, 0x04);
    assert_eq!(tlv.content, &content[..]);
    assert_eq!((tlv.content_start, tlv.content_end, tlv.tlv_end), (4, 304, 304));

    for (tag, identifier) in [
        (30, vec![0x7e]),
        (31, vec![0x7f, 0x1f]),
        (128, vec![0x7f, 0x81, 0x00]),
        (u32::MAX, vec![0x7f, 0x8f, 0xff, 0xff, 0xff, 0x7f]),
    ] {
        let mut output = Vec::new();
        encode_identifier(1, true, tag, &mut output);
        assert_eq!(output, identifier);
        let encoded = encode_ber_value(1, true, tag, &[1, 2, 3]);
        let tlv = read_tlv_at(&encoded, 0).unwrap();
        assert_eq!(tlv.content, &[1, 2, 3]);
        assert_eq!(tlv.content_start, identifier.len() + 1);
    }
}

#[test]
fn broken_values_are_refused() {
    for (data, expected) in [
        (vec![], "truncated BER identifier"),
        (
            vec![0x1f, 0x81],
            "truncated high-tag-number BER identifier",
        ),
        (vec![0x04, 0x02, 0x00], "BER value exceeds message length"),
        (
            vec![0x04, 0x88, 0xff, 0xff, 0xff, 0xff, 0xff, 0xff, 0xff, 0xff],
            "BER length overflowed message size",
        ),
    ] {
        assert_eq!(
            sentence(read_tlv_at(&data, 0)),
            format!("failed to parse SNMP message: {expected}")
        );
    }
}

#[test]
fn integers_are_encoded_shortest_and_read_back() {
    for (value, content) in [
        (0, vec![0x00]),
        (127, vec![0x7f]),
        (128, vec![0x00, 0x80]),
        (-1, vec![0xff]),
        (-128, vec![0x80]),
        (-129, vec![0xff, 0x7f]),
        (
            i64::MIN,
            vec![0x80, 0x00, 0x00, 0x00, 0x00, 0x00, 0x00, 0x00],
        ),
        (
            i64::MAX,
            vec![0x7f, 0xff, 0xff, 0xff, 0xff, 0xff, 0xff, 0xff],
        ),
    ] {
        assert_eq!(encode_integer_i64(value), encode_tlv(0x02, &content));
        assert_eq!(decode_ber_integer_i64(&content).unwrap(), value);
    }
    assert_eq!(decode_ber_integer_i64(&[0xff, 0xff]).unwrap(), -1);
    assert_eq!(
        encode_unsigned_integer_content(u64::MAX),
        vec![0x00, 0xff, 0xff, 0xff, 0xff, 0xff, 0xff, 0xff, 0xff]
    );
    assert_eq!(encode_application_integer(0x41, 0), vec![0x41, 0x01, 0x00]);
    assert_eq!(code(decode_ber_integer_i64(&[])), "malformed_message");
    assert_eq!(
        sentence(decode_ber_integer_i64(&[0; 9])),
        "failed to parse SNMP message: BER INTEGER cannot be decoded as i64"
    );
}

#[test]
fn request_ids_are_of_thirty_two_bits() {
    assert_eq!(validate_request_id(i32::MAX as i64).unwrap(), i32::MAX as i64);
    assert_eq!(validate_request_id(i32::MIN as i64).unwrap(), i32::MIN as i64);
    for value in [i32::MAX as i64 + 1, i32::MIN as i64 - 1] {
        assert_eq!(
            sentence(validate_request_id(value)),
            "invalid RFC 3416 request-id: request-id must fit the signed 32-bit RFC 3416 range"
        );
    }
}

#[test]
fn raw_fields_are_found() {
    let data = v2c(0xa7, encode_integer_i64(-5));
    let (version, community, pdu) = raw_message_fields(&data).unwrap();
    assert_eq!(version.content, &[1]);
    assert_eq!(community.content, b"public");
    assert_eq!(pdu.tag, 0xa7);
    assert_eq!(raw_v2c_request_id(&data).unwrap(), -5);
    assert_eq!(
        sentence(raw_message_fields(&[0x31, 0x00])),
        "failed to parse SNMP message: SNMP message must start with a sequence"
    );
    assert_eq!(
        sentence(raw_v1_generic_trap(&data)),
        "failed to parse SNMP message: SNMP message did not contain SNMPv1 version"
    );
    assert_eq!(
        sentence(raw_v2c_request_id(&message(0, encode_tlv(0xa7, &[])))),
        "failed to parse SNMP message: SNMP message did not contain SNMPv2c version"
    );
    assert_eq!(
        sentence(raw_v2c_request_id(&v2c(0xa7, encode_tlv(0x04, b"x")))),
        "failed to parse SNMP message: SNMPv2c request-id was not encoded as an INTEGER"
    );
    assert_eq!(
        sentence(raw_v1_generic_trap(&message(0, encode_tlv(0xa7, &[])))),
        "failed to parse SNMP message: SNMPv1 message did not contain a Trap-PDU"
    );
    let fields = concat(&[
        encode_tlv(0x06, &COLD_START),
        encode_tlv(0x40, &[1, 2, 3, 4]),
        encode_tlv(0x04, &[]),
    ]);
    assert_eq!(
        sentence(raw_v1_generic_trap(&message(0, encode_tlv(0xa4, &fields)))),
        "failed to parse SNMP message: SNMPv1 generic-trap was not encoded as an INTEGER"
    );
}

#[test]
fn negative_request_ids_are_patched_alone() {
    let data = v2c(0xa6, encode_integer_i64(-2));
    let (patched, request_id) = patch_negative_v2c_request_id(&data).unwrap().unwrap();
    assert_eq!(request_id, -2);
    assert_eq!(patched.len(), data.len());
    let changed: Vec<usize> = (0..data.len())
        .filter(|index| data[*index] != patched[*index])
        .collect();
    assert_eq!(changed.len(), 1);
    assert_eq!((data[changed[0]], patched[changed[0]]), (0xfe, 0x00));
    assert_eq!(raw_v2c_request_id(&patched).unwrap(), 0);

    for data in [
        v2c(0xa6, encode_integer_i64(2)),
        v2c(0x30, encode_integer_i64(-2)),
        v2c(0xa6, encode_tlv(0x04, b"x")),
        message(0, encode_tlv(0xa6, &[])),
        vec![0xff],
    ] {
        assert!(patch_negative_v2c_request_id(&data).unwrap().is_none());
    }
    let large = v2c(0xa6, encode_integer_i64(i32::MIN as i64 - 1));
    assert_eq!(
        code(patch_negative_v2c_request_id(&large)),
        "invalid_request_id"
    );
    let long = v2c(0xa6, encode_tlv(0x02, &[0; 9]));
    assert_eq!(
        code(patch_negative_v2c_request_id(&long)),
        "malformed_message"
    );
}

#[test]
fn remaining_octets_are_refused() {
    assert_eq!(code(ensure_consumed(&[])), "ok");
    assert!(matches!(
        ensure_consumed(&[1, 2]),
        Err(ParseError::TrailingData(2))
    ));
}

#[test]
fn messages_are_parsed_into_plain_values() {
    let data = v2c(0xa7, encode_integer_u64(9));
    let (remaining, parsed) = parse_snmp_v2c(&data).unwrap();
    assert!(remaining.is_empty());
    assert_eq!(
        parsed,
        Message {
            community: "public".to_string(),
            pdu: SnmpPdu::Generic(generic(
                PduType::TrapV2,
                vec![up_time(ticks(1)), trap_oid(cold_start())]
            )),
        }
    );
    assert!(parse_snmp_v1(&data).is_none());
    assert!(parse_snmp_v2c(b"invalid data").is_none());
}

#[test]
fn every_value_is_parsed_into_a_plain_value() {
    let cases: Vec<(Vec<u8>, BoundValue)> = vec![
        (
            encode_integer_i64(-7),
            BoundValue::Value(ObjectValue::Number(-7)),
        ),
        (
            encode_tlv(0x04, b"abc"),
            BoundValue::Value(ObjectValue::String(b"abc".to_vec())),
        ),
        (
            encode_tlv(0x03, &[0x04, 0xa0]),
            BoundValue::Value(ObjectValue::BitString {
                unused_bits: 4,
                data: vec![0xa0],
            }),
        ),
        (encode_tlv(0x06, &COLD_START), cold_start()),
        (
            encode_tlv(0x40, &[10, 0, 0, 1]),
            BoundValue::Value(ObjectValue::IpAddress(NetworkAddress::IPv4(10, 0, 0, 1))),
        ),
        (
            encode_application_integer(0x41, 5),
            BoundValue::Value(ObjectValue::Counter32(5)),
        ),
        (
            encode_application_integer(0x42, 6),
            BoundValue::Value(ObjectValue::Gauge32(6)),
        ),
        (encode_application_integer(0x43, 7), ticks(7)),
        (
            encode_tlv(0x44, &[1, 2]),
            BoundValue::Value(ObjectValue::Opaque(vec![1, 2])),
        ),
        (
            encode_application_integer(0x46, 8),
            BoundValue::Value(ObjectValue::Counter64(8)),
        ),
        (encode_tlv(0x80, &[]), BoundValue::NoSuchObject),
        (encode_tlv(0x81, &[]), BoundValue::NoSuchInstance),
        (encode_tlv(0x82, &[]), BoundValue::EndOfMibView),
        (
            encode_ber_value(1, false, 31, &[0xab]),
            BoundValue::Value(ObjectValue::UnknownApplication(UnknownValue {
                class: TagClass::Application,
                constructed: false,
                tag: 31,
                bytes: vec![0xab],
            })),
        ),
    ];
    for (encoded, value) in cases {
        let varbind = encode_sequence(&concat(&[encode_tlv(0x06, &UP_TIME), encoded.clone()]));
        let data = message(
            1,
            encode_tlv(
                0xa7,
                &concat(&[
                    encode_integer_u64(1),
                    encode_integer_u64(0),
                    encode_integer_u64(0),
                    encode_sequence(&varbind),
                ]),
            ),
        );
        let (_, parsed) = parse_snmp_v2c(&data).unwrap();
        match parsed.pdu {
            SnmpPdu::Generic(pdu) => assert_eq!(pdu.var, vec![up_time(value.clone())]),
            other => panic!("expected a notification, got {other:?}"),
        }
        assert_eq!(encode_varbind_value(&value), encoded);
    }
}

#[test]
fn v1_traps_are_parsed_into_plain_values() {
    let fields = concat(&[
        encode_tlv(0x06, &COLD_START),
        encode_tlv(0x40, &[192, 0, 2, 1]),
        encode_integer_u64(2),
        encode_integer_u64(3),
        encode_application_integer(0x43, 4),
        encode_sequence(&[]),
    ]);
    let data = message(0, encode_tlv(0xa4, &fields));
    assert_eq!(raw_v1_generic_trap(&data).unwrap(), 2);
    let (remaining, parsed) = parse_snmp_v1(&data).unwrap();
    assert!(remaining.is_empty());
    assert_eq!(
        parsed.pdu,
        SnmpPdu::TrapV1(SnmpTrapPdu {
            enterprise: object_id(&COLD_START, "1.3.6.1.6.3.1.1.5.1"),
            agent_addr: NetworkAddress::IPv4(192, 0, 2, 1),
            specific_trap: 3,
            timestamp: 4,
            var: Vec::new(),
        })
    );

    let data = Bytes::from(data);
    let notification = parse_v1_trap(parsed, &data, "peer", &resolver()).unwrap();
    let log = notification.events.get(0).unwrap();
    assert!(
        matches!(log.get("message"), Some(LogValue::Text(text)) if text == "SNMPv1 trap from peer (1.3.6.1.6.3.1.1.5.1): linkDown")
    );
    assert!(matches!(log.get("specific_trap"), Some(LogValue::Integer(3))));
    assert!(matches!(log.get("generic_trap"), Some(LogValue::Integer(2))));
}

#[test]
fn other_pdus_are_refused() {
    let bulk = Message {
        community: "public".to_string(),
        pdu: SnmpPdu::Bulk,
    };
    assert!(matches!(
        parse_v2c_notification(bulk.clone(), 1, "peer", &resolver()),
        Err(ParseError::InvalidPduType(PduType::GetBulkRequest))
    ));
    assert!(matches!(
        finish_v1(&[], bulk.clone(), &Bytes::new(), "peer", &resolver()),
        Err(ParseError::InvalidPduType(PduType::GetBulkRequest))
    ));
    assert!(matches!(
        finish_v2c(&[1], bulk, Ok(1), "peer", &resolver()),
        Err(ParseError::TrailingData(1))
    ));
    let get = v2c(0xa0, encode_integer_u64(1));
    assert_eq!(
        sentence(parse_snmp_trap(&Bytes::from(get), "peer", &resolver())),
        "invalid PDU type for SNMP notification: GetRequest"
    );
}

#[test]
fn notifications_need_their_first_two_variables() {
    let check = |var: Vec<Variable>| {
        sentence(validate_v2c_notification_varbinds(&generic(
            PduType::TrapV2,
            var,
        )))
    };
    let refused = |message: &str| format!("invalid RFC 3416 SNMPv2 notification: {message}");
    assert_eq!(
        check(vec![]),
        refused("missing sysUpTime.0 and snmpTrapOID.0 varbinds")
    );
    assert_eq!(
        check(vec![trap_oid(cold_start())]),
        refused("first varbind must be sysUpTime.0")
    );
    assert_eq!(
        check(vec![up_time(cold_start())]),
        refused("sysUpTime.0 varbind must contain TimeTicks")
    );
    assert_eq!(
        check(vec![up_time(ticks(1))]),
        refused("missing snmpTrapOID.0 varbind")
    );
    assert_eq!(
        check(vec![up_time(ticks(1)), up_time(ticks(1))]),
        refused("second varbind must be snmpTrapOID.0")
    );
    assert_eq!(
        check(vec![up_time(ticks(1)), trap_oid(ticks(1))]),
        refused("snmpTrapOID.0 varbind must contain an ObjectIdentifier")
    );
    assert_eq!(
        validate_v2c_notification_varbinds(&generic(
            PduType::TrapV2,
            vec![up_time(ticks(u32::MAX)), trap_oid(cold_start())]
        ))
        .unwrap(),
        (4_294_967_295, "1.3.6.1.6.3.1.1.5.1".to_string())
    );
}

#[test]
fn informs_are_described_and_answered() {
    let data = Bytes::from(v2c(0xa6, encode_integer_i64(-2)));
    let parsed = parse_snmp_trap(&data, "peer", &resolver()).unwrap();
    let log = parsed.events.get(0).unwrap();
    assert!(
        matches!(log.get("message"), Some(LogValue::Text(text)) if text == "SNMPv2c inform from peer: 1.3.6.1.6.3.1.1.5.1")
    );
    let response = parsed.response.unwrap();
    assert_eq!(&response[..], &v2c(0xa2, encode_integer_i64(-2))[..]);
    assert_eq!(raw_v2c_request_id(&response).unwrap(), -2);
}

#[test]
fn responses_are_encoded_exactly() {
    assert_eq!(
        build_v2c_response(b"c", 1, 1, 0, None).to_vec(),
        vec![
            0x30, 0x13, 0x02, 0x01, 0x01, 0x04, 0x01, b'c', 0xa2, 0x0b, 0x02, 0x01, 0x01, 0x02,
            0x01, 0x01, 0x02, 0x01, 0x00, 0x30, 0x00,
        ]
    );
    assert_eq!(encode_varbind_list(&[]), vec![0x30, 0x00]);
    assert_eq!(
        encode_object_value(&ObjectValue::NsapAddress(vec![9])),
        vec![0x45, 0x01, 0x09]
    );
    assert_eq!(
        encode_object_value(&ObjectValue::UInteger32(200)),
        vec![0x47, 0x02, 0x00, 0xc8]
    );
    assert_eq!(encode_object_value(&ObjectValue::Empty), vec![0x05, 0x00]);
    assert_eq!(
        encode_varbind_value(&BoundValue::Unspecified),
        vec![0x05, 0x00]
    );
}

#[test]
fn responses_fit_one_message() {
    let pdu = |size: usize| {
        generic(
            PduType::InformRequest,
            vec![up_time(BoundValue::Value(ObjectValue::String(vec![0; size])))],
        )
    };
    let overhead = build_v2c_response(b"public", 1, 0, 0, Some(&pdu(60_000).var)).len() - 60_000;
    let fitting = MAX_SNMP_MESSAGE_SIZE - overhead;
    let response = build_inform_response(b"public", 1, &pdu(fitting)).unwrap();
    assert_eq!(response.len(), MAX_SNMP_MESSAGE_SIZE);
    let response = build_inform_response(b"public", 1, &pdu(fitting + 1)).unwrap();
    assert_eq!(&response[..], &build_v2c_response(b"public", 1, 1, 0, None)[..]);
    let community = vec![b'x'; MAX_SNMP_MESSAGE_SIZE];
    assert!(build_inform_response(&community, 1, &pdu(0)).is_none());
}

#[test]
fn values_are_formatted_by_type() {
    let unknown = UnknownValue {
        class: TagClass::ContextSpecific,
        constructed: true,
        tag: 40,
        bytes: vec![0x0f],
    };
    let text = "class=CONTEXT-SPECIFIC,constructed=true,tag=40,bytes=0f";
    assert_eq!(
        format_unknown_value(TagClass::ContextSpecific, true, 40, &[0x0f]),
        text
    );
    for (value, value_type, text, hex) in [
        (ObjectValue::Number(i32::MIN), "integer", "-2147483648", None),
        (
            ObjectValue::Object(object_id(&UP_TIME, "1.3.6.1.2.1.1.3.0")),
            "object_identifier",
            "1.3.6.1.2.1.1.3.0",
            None,
        ),
        (
            ObjectValue::BitString {
                unused_bits: 4,
                data: vec![0xa0],
            },
            "bit_string",
            "unused_bits=4,bytes=a0",
            Some("a0"),
        ),
        (
            ObjectValue::NsapAddress(vec![1]),
            "nsap_address",
            "01",
            Some("01"),
        ),
        (
            ObjectValue::UnknownSimple(unknown.clone()),
            "unknown_simple",
            text,
            Some("0f"),
        ),
        (
            ObjectValue::UnknownApplication(unknown),
            "unknown_application",
            text,
            Some("0f"),
        ),
    ] {
        let formatted = format_object_value(&value);
        assert_eq!(formatted.value_type, value_type);
        assert_eq!(formatted.value, text);
        assert_eq!(formatted.value_bytes_hex.as_deref(), hex);
    }
    let unspecified = format_varbind_value(&BoundValue::Unspecified);
    assert_eq!(unspecified.value_type, "unspecified");
    assert_eq!(unspecified.value, "unspecified");
    assert_eq!(
        formatted_bytes_value("t", "v".to_string(), &[0xff]).value_bytes_hex,
        Some("ff".to_string())
    );
}

#[test]
fn printable_text_has_no_control_characters() {
    assert_eq!(printable_utf8("a\n\r\t\u{e9}".as_bytes()), Some("a\n\r\t\u{e9}"));
    assert_eq!(printable_utf8(b""), Some(""));
    assert_eq!(printable_utf8(b"a\x00"), None);
    assert_eq!(printable_utf8(b"\x7f"), None);
    assert_eq!(printable_utf8("\u{85}".as_bytes()), None);
    assert_eq!(printable_utf8("\u{a0}".as_bytes()), Some("\u{a0}"));
    assert_eq!(printable_utf8(b"\xff"), None);
}

#[test]
fn hexadecimal_tells_the_octets() {
    assert_eq!(bytes_to_hex(&[]), "");
    assert_eq!(bytes_to_hex(&[0x00, 0x1f, 0xff]), "001fff");
}

#[test]
fn names_are_added_beside_numbers() {
    let mut fields = serde_json::Map::new();
    insert_json_oid_resolution(&mut fields, "oid", "1.2.3", &resolver());
    assert!(fields.is_empty());
    insert_json_oid_resolution(&mut fields, "oid", "1.3.6.1.2.1.1.3.0", &resolver());
    assert_eq!(fields["oid_name"], Value::from("SNMPv2-MIB::sysUpTime.0"));
    assert_eq!(fields["oid_module"], Value::from("SNMPv2-MIB"));
    assert_eq!(fields["oid_symbol"], Value::from("sysUpTime"));
    assert_eq!(fields["oid_instance"], Value::from("0"));
    assert_eq!(fields.len(), 4);

    let mut fields = serde_json::Map::new();
    insert_json_resolution(
        &mut fields,
        "x",
        OidResolution {
            name: "n".to_string(),
            module: None,
            symbol: "s".to_string(),
            instance: None,
        },
    );
    assert_eq!(fields.len(), 2);

    let mut log = LogEvent::new();
    insert_oid_resolution(&mut log, "oid", "1.3.6.1.2.1.1.3.0", &resolver());
    assert!(
        matches!(log.get("oid_name"), Some(LogValue::Text(text)) if text == "SNMPv2-MIB::sysUpTime.0")
    );
    assert_eq!(log.into_fields().len(), 4);

    let varbinds = format_varbinds(&[up_time(ticks(1)), trap_oid(cold_start())], &resolver());
    assert_eq!(varbinds[0]["oid"], Value::from("1.3.6.1.2.1.1.3.0"));
    assert_eq!(varbinds[0]["value"], Value::from("1"));
    assert_eq!(varbinds[1]["value"], Value::from("1.3.6.1.6.3.1.1.5.1"));
}

#[test]
fn generic_traps_are_named() {
    let names: Vec<&str> = (0..8).map(trap_type_name).collect();
    assert_eq!(
        names,
        vec![
            "coldStart",
            "warmStart",
            "linkDown",
            "linkUp",
            "authenticationFailure",
            "egpNeighborLoss",
            "enterpriseSpecific",
            "unknown",
        ]
    );
}

#[test]
fn errors_are_worded_and_coded() {
    assert_eq!(
        malformed("x").message(),
        "failed to parse SNMP message: x"
    );
    let error = ParseError::UnsupportedVersion("not supported");
    assert_eq!(error.message(), "not supported");
    assert_eq!(error.error_code(), "unsupported_version");
    let error = ParseError::InvalidV1Trap("x");
    assert_eq!(error.message(), "invalid RFC 1157 SNMPv1 trap: x");
    assert_eq!(error.error_code(), "invalid_v1_trap");
    assert_eq!(PduType::from_code(4), PduType::TrapV1);
    assert_eq!(PduType::from_code(99), PduType::Other(99));
    assert_eq!(PduType::Other(99).name(), "PduType(99)");
    assert_eq!(
        sentence(parse_snmp_trap(
            &Bytes::from("invalid data"),
            "peer",
            &resolver()
        )),
        "failed to parse SNMP message: could not parse as SNMPv1 trap or SNMPv2c notification"
    );
}

#[test]
fn numbers_are_rendered_and_read_back() {
    assert_eq!(render_decimal(u64::MAX), "18446744073709551615");
    assert_eq!(render_signed(i64::MIN), "-9223372036854775808");
    assert_eq!(render_numeral(255, 16), "ff");
    for value in [0, 7, 10, u32::MAX] {
        assert_eq!(parse_u32(&render_decimal(value as u64)), Some(value));
    }
    assert_eq!(parse_u32("+7"), Some(7));
    for text in ["", "+", "-1", "1a", "4294967296"] {
        assert_eq!(parse_u32(text), None, "{text}");
    }
}

#[test]
fn informs_with_room_in_their_community_are_answered() {
    let pdu = generic(
        PduType::InformRequest,
        vec![up_time(BoundValue::Value(ObjectValue::String(vec![
            0;
            MAX_SNMP_MESSAGE_SIZE
        ])))],
    );
    let request_id = i32::MIN as i64;
    let community = vec![b'x'; MAX_SNMP_MESSAGE_SIZE - 27];
    let response = build_inform_response(&community, request_id, &pdu).unwrap();
    assert_eq!(response.len(), MAX_SNMP_MESSAGE_SIZE);
    let community = vec![b'x'; MAX_SNMP_MESSAGE_SIZE - 26];
    assert!(build_inform_response(&community, request_id, &pdu).is_none());
}

#[test]
fn other_versions_are_told_from_garbage() {
    assert_eq!(unparsed_error(true).error_code(), "unsupported_version");
    assert_eq!(unparsed_error(false).error_code(), "malformed_message");
}
