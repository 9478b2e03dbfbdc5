use snmp_trap::display::{
    display_bits, display_hex, display_hinted_integer, display_hinted_octets, display_integer,
    display_octets, display_timeticks, display_value, parse_octet_hint, push_escaped, BaseSyntax,
    OctetFormat, ValueSyntax,
};
use snmp_trap::mib::resolver::MibResolver;
use snmp_trap::model::{BoundValue, NetworkAddress, ObjectId, ObjectValue};

fn syntax(base: BaseSyntax) -> ValueSyntax {
    ValueSyntax {
        base,
        named_numbers: Vec::new(),
        display_hint: None,
        units: None,
    }
}

fn octet_syntax(hint: &str) -> ValueSyntax {
    ValueSyntax {
        display_hint: Some(hint.to_string()),
        ..syntax(BaseSyntax::OctetString)
    }
}

fn string_value(bytes: &[u8]) -> BoundValue {
    BoundValue::Value(ObjectValue::String(bytes.to_vec()))
}

fn number(value: i32) -> BoundValue {
    BoundValue::Value(ObjectValue::Number(value))
}

fn display(value: &BoundValue, syntax: Option<&ValueSyntax>) -> String {
    display_value(value, syntax, &MibResolver::with_builtin_symbols())
}

#[test]
fn displays_like_snmptrapd_without_mib_syntax() {
    for (value, expected) in [
        (string_value(b"hello world"), "\"hello world\""),
        (string_value(b"say \"hi\""), "\"say \\\"hi\\\"\""),
        (string_value(b"back\\slash"), "\"back\\\\slash\""),
        (string_value(b"hello\n"), "\"hello\n\""),
        (string_value(b""), "\"\""),
        (
            string_value(&[0xde, 0xad, 0xbe, 0xef, 0x00]),
            "DE AD BE EF 00 ",
        ),
        (
            string_value(&[0xff; 17]),
            "FF FF FF FF FF FF FF FF FF FF FF FF FF FF FF FF \nFF ",
        ),
        (BoundValue::Value(ObjectValue::Counter32(42)), "42"),
        (BoundValue::Value(ObjectValue::Gauge32(7)), "7"),
        (number(-5), "-5"),
        (
            BoundValue::Value(ObjectValue::Counter64(u64::MAX)),
            "18446744073709551615",
        ),
        (
            BoundValue::Value(ObjectValue::TimeTicks(0)),
            "(0) 0:00:00.00",
        ),
        (
            BoundValue::Value(ObjectValue::TimeTicks(123_456)),
            "(123456) 0:20:34.56",
        ),
        (
            BoundValue::Value(ObjectValue::TimeTicks(8_640_123)),
            "(8640123) 1 day, 0:00:01.23",
        ),
        (
            BoundValue::Value(ObjectValue::TimeTicks(17_280_000)),
            "(17280000) 2 days, 0:00:00.00",
        ),
        (
            BoundValue::Value(ObjectValue::IpAddress(NetworkAddress::IPv4(
                10, 0, 0, 1,
            ))),
            "10.0.0.1",
        ),
        (BoundValue::Unspecified, "NULL"),
        (BoundValue::Value(ObjectValue::Empty), "NULL"),
        (
            BoundValue::NoSuchObject,
            "No Such Object available on this agent at this OID",
        ),
        (
            BoundValue::NoSuchInstance,
            "No Such Instance currently exists at this OID",
        ),
        (
            BoundValue::EndOfMibView,
            "No more variables left in this MIB View (It is past the end of the MIB tree)",
        ),
    ] {
        assert_eq!(display(&value, None), expected);
    }
}

#[test]
fn displays_enumerations_and_integer_hints() {
    let enumeration = ValueSyntax {
        named_numbers: vec![(1, "up".to_string()), (2, "down".to_string())],
        ..syntax(BaseSyntax::Integer)
    };
    assert_eq!(display(&number(2), Some(&enumeration)), "down(2)");
    assert_eq!(display(&number(9), Some(&enumeration)), "9");

    let hinted = |hint: &str| ValueSyntax {
        display_hint: Some(hint.to_string()),
        ..syntax(BaseSyntax::Integer)
    };
    assert_eq!(display(&number(42), Some(&hinted("d"))), "42");
    assert_eq!(display(&number(42), Some(&hinted("d-0"))), "42");
    for invalid in ["x1", "o2", "b3", "q", "d2", "d-x"] {
        assert_eq!(
            display(&number(42), Some(&hinted(invalid))),
            "42",
            "hint {invalid}"
        );
    }
}

#[test]
fn syntax_is_ignored_when_the_value_has_another_type() {
    let enumeration = ValueSyntax {
        named_numbers: vec![(1, "up".to_string())],
        ..syntax(BaseSyntax::Integer)
    };
    assert_eq!(display(&string_value(b"up"), Some(&enumeration)), "\"up\"");
    assert_eq!(display(&number(1), Some(&octet_syntax("1x:"))), "1");
}

#[test]
fn displays_bits_with_labels() {
    let bits = ValueSyntax {
        named_numbers: vec![
            (0, "sunday".to_string()),
            (3, "wednesday".to_string()),
            (6, "saturday".to_string()),
        ],
        ..syntax(BaseSyntax::Bits)
    };
    assert_eq!(
        display(&string_value(&[0x80]), Some(&bits)),
        "80 sunday(0) "
    );
    assert_eq!(
        display(&string_value(&[0x92, 0x01]), Some(&bits)),
        "92 01 sunday(0) wednesday(3) saturday(6) 15 "
    );
}

#[test]
fn appends_units_to_numeric_values() {
    let with_units = |base| ValueSyntax {
        units: Some("seconds".to_string()),
        ..syntax(base)
    };
    assert_eq!(
        display(&number(42), Some(&with_units(BaseSyntax::Integer))),
        "42 seconds"
    );
    assert_eq!(
        display(
            &BoundValue::Value(ObjectValue::Counter32(7)),
            Some(&with_units(BaseSyntax::Counter))
        ),
        "7 seconds"
    );
    assert_eq!(
        display(
            &BoundValue::Value(ObjectValue::TimeTicks(0)),
            Some(&with_units(BaseSyntax::TimeTicks))
        ),
        "(0) 0:00:00.00 seconds"
    );
}

#[test]
fn displays_network_addresses_as_hex() {
    let value = BoundValue::Value(ObjectValue::IpAddress(NetworkAddress::IPv4(
        10, 1, 2, 3,
    )));
    assert_eq!(
        display(&value, Some(&syntax(BaseSyntax::NetworkAddress))),
        "0A:01:02:03"
    );
    assert_eq!(display(&value, None), "10.1.2.3");
}

#[test]
fn applies_octet_display_hints() {
    for (hint, bytes, expected) in [
        (
            "1x:",
            &[0x00, 0x1a, 0x2b, 0x3c, 0x4d, 0x5e][..],
            "0:1a:2b:3c:4d:5e",
        ),
        ("255a", b"eth0", "eth0"),
        ("255a", b"a \"b\" \\c", "a \"b\" \\c"),
        ("1d.1d.1d.1d", &[10, 0, 0, 1], "10.0.0.1"),
        (
            "2d-1d-1d,1d:1d:1d.1d,1a1d:1d",
            &[0x07, 0xe9, 9, 26, 12, 30, 45, 0],
            "2025-9-26,12:30:45.0",
        ),
        (
            "2d-1d-1d,1d:1d:1d.1d,1a1d:1d",
            &[0x07, 0xe9, 9, 26, 12, 30, 45, 0, b'+', 5, 30],
            "2025-9-26,12:30:45.0,+5:30",
        ),
        ("*1x:/1x:", &[2, 0xaa, 0xbb, 0xcc], "aa:bb:/cc"),
        ("2d", &[0x41], "16640"),
        ("2x:", &[0xc0, 0x05, 0xd8], "c005:d800"),
        (
            "1d.1d.1d.1d%4d",
            &[192, 168, 0, 1, 0, 0, 0, 3],
            "192.168.0.1%3",
        ),
    ] {
        assert_eq!(
            display(&string_value(bytes), Some(&octet_syntax(hint))),
            expected,
            "hint {hint}"
        );
    }
}

/// Outputs recorded from Net-SNMP 5.9.4's `snmptrapd` for objects using these hints.
#[test]
fn matches_net_snmp_hint_rendering() {
    let bracket = "0a[2x:2x:2x:2x:2x:2x:2x:2x]0a:2d";
    let address = [0xfe, 0x80, 0, 0, 0, 0, 0, 0, 0, 0, 0, 0, 0, 0, 0, 0x01];
    let with_port = [&address[..], &[0x00, 0x50]].concat();
    let with_extra = [&with_port[..], &[0xaa]].concat();
    for (hint, bytes, expected) in [
        (bracket, &address[..], "\u{fffd}[8000:0:0:0:0:0:0:100"),
        (bracket, &with_port[..], "\u{fffd}[8000:0:0:0:0:0:0:100]P"),
        (
            bracket,
            &with_extra[..],
            "\u{fffd}[8000:0:0:0:0:0:0:100]P:43520",
        ),
        (bracket, &[0xfe, 0x80][..], "\u{fffd}[8000"),
        ("*1x:/1x:", &[2, 0xaa, 0xbb, 0xcc][..], "aa:bb:/cc"),
        ("*1x:/1x:", &[2, 0xaa, 0xbb][..], "aa:bb"),
        ("*1x:/1x:", &[5, 0xaa][..], "aa"),
        ("*1x:/1x:", &[0, 0xaa, 0xbb][..], "/aa:bb"),
        ("*1x:/1x:", &[1, 0xaa, 0xbb, 0xcc][..], "aa:/bb:cc"),
        ("1o-", &[0x0a, 0x1b, 0xff][..], "12-33-377"),
        (
            "1d.1d.1d.1d%4d",
            &[192, 168, 0, 1, 0, 0, 0, 3][..],
            "192.168.0.1%3",
        ),
        ("1d.1d.1d.1d%4d", &[192, 168, 0, 1][..], "192.168.0.1"),
        ("1d.1d.1d.1d%4d", &[192, 168, 0, 1, 0][..], "192.168.0.1%0"),
    ] {
        assert_eq!(
            display(&string_value(bytes), Some(&octet_syntax(hint))),
            expected,
            "hint {hint} on {bytes:02x?}"
        );
    }

    let hinted = |hint: &str| ValueSyntax {
        display_hint: Some(hint.to_string()),
        ..syntax(BaseSyntax::Integer)
    };
    for (hint, value, expected) in [
        ("d-2", 0, ".00"),
        ("d-2", 5, ".05"),
        ("d-2", -5, "-.05"),
        ("d-2", 1234, "12.34"),
        ("d-2", -1234, "-12.34"),
        ("d-1", 1234, "123.4"),
        ("d-1", -7, "-.7"),
        ("d-1", 0, ".0"),
        ("d-3", 5, ".005"),
        ("d-3", 123_456, "123.456"),
        ("x", 255, "ff"),
        ("x", -1, "ffffffffffffffff"),
        ("o", 8, "10"),
        ("b", 5, "00000000000000000000000000000101"),
        ("b", -2, "11111111111111111111111111111110"),
    ] {
        assert_eq!(
            display(&number(value), Some(&hinted(hint))),
            expected,
            "hint {hint} on {value}"
        );
    }

    let unsigned = ValueSyntax {
        display_hint: Some("d-2".to_string()),
        units: Some("volts".to_string()),
        ..syntax(BaseSyntax::Unsigned)
    };
    let gauge = |value| BoundValue::Value(ObjectValue::Gauge32(value));
    assert_eq!(display(&gauge(1234), Some(&unsigned)), "12.34 volts");
    assert_eq!(display(&gauge(0), Some(&unsigned)), ".00 volts");
    let widgets = ValueSyntax {
        units: Some("widgets".to_string()),
        ..syntax(BaseSyntax::Unsigned)
    };
    assert_eq!(display(&gauge(7), Some(&widgets)), "7 widgets");
    // An integer syntax does not apply to unsigned values.
    assert_eq!(display(&gauge(1234), Some(&hinted("d-2"))), "1234");
}

#[test]
fn displays_timeticks_with_hours_and_minutes() {
    assert_eq!(
        display(
            &BoundValue::Value(ObjectValue::TimeTicks(4_000_000)),
            None
        ),
        "(4000000) 11:06:40.00"
    );
}

#[test]
fn invalid_hints_fall_back_to_default_formatting() {
    assert_eq!(
        display(&string_value(b"abc"), Some(&octet_syntax("1q"))),
        "\"abc\""
    );
    assert_eq!(
        display(&string_value(b"abc"), Some(&octet_syntax(""))),
        "\"abc\""
    );
}

#[test]
fn hexadecimal_breaks_lines_only_where_octets_follow() {
    assert_eq!(display_hex(&[]), "");
    assert_eq!(
        display_hex(&[0x0f; 16]),
        "0F 0F 0F 0F 0F 0F 0F 0F 0F 0F 0F 0F 0F 0F 0F 0F "
    );
}

#[test]
fn integers_are_labelled_before_they_are_hinted() {
    let labelled = ValueSyntax {
        named_numbers: vec![(1, "one".to_string()), (1, "uno".to_string())],
        display_hint: Some("x".to_string()),
        ..syntax(BaseSyntax::Integer)
    };
    assert_eq!(display_integer(1, Some(&labelled)), "one(1)");
    assert_eq!(display_integer(255, Some(&labelled)), "255");
    assert_eq!(display_integer(i64::MIN, None), "-9223372036854775808");
}

#[test]
fn integer_hints_cover_every_format() {
    for (hint, value, expected) in [
        ("", 5, None),
        ("d-", 5, None),
        ("d+2", 5, None),
        ("d-+2", 5, Some(".05")),
        ("d-00", 5, Some("5")),
        ("d-4", 1234, Some(".1234")),
        ("d-5", -1234, Some("-.01234")),
        ("d-18446744073709551616", 5, None),
        ("x", i64::MIN, Some("8000000000000000")),
        ("o", -1, Some("1777777777777777777777")),
        ("b", i64::MIN, Some("00000000000000000000000000000000")),
        ("bb", 1, None),
    ] {
        assert_eq!(
            display_hinted_integer(value, hint).as_deref(),
            expected,
            "hint {hint} on {value}"
        );
    }
}

#[test]
fn timeticks_count_days() {
    assert_eq!(display_timeticks(u32::MAX), "(4294967295) 497 days, 2:27:52.95");
    assert_eq!(display_timeticks(8_639_999), "(8639999) 23:59:59.99");
}

#[test]
fn octets_are_quoted_only_where_all_are_printable() {
    assert_eq!(display_octets(b"\t\n\x0b\x0c\r ~!"), "\"\t\n\x0b\x0c\r ~!\"");
    assert_eq!(display_octets(b"a\x7f"), "61 7F ");
    assert_eq!(display_octets("\u{e9}".as_bytes()), "C3 A9 ");

    let mut output = "<".to_string();
    push_escaped(&mut output, "a\"b\\c");
    assert_eq!(output, "<a\\\"b\\\\c");
}

#[test]
fn bits_take_the_first_label() {
    let labels = [(7, "last".to_string()), (7, "other".to_string())];
    assert_eq!(display_bits(&[0x01, 0x80], &labels), "01 80 last(7) 8 ");
    assert_eq!(display_bits(&[], &labels), "");
}

#[test]
fn octet_hints_are_read_field_by_field() {
    assert_eq!(
        parse_octet_hint("*0x:/255a"),
        Some(vec![
            OctetFormat {
                repeat: true,
                length: 1,
                format: 'x',
                separator: Some(':'),
                terminator: Some('/'),
            },
            OctetFormat {
                repeat: false,
                length: 255,
                format: 'a',
                separator: None,
                terminator: None,
            },
        ])
    );
    for hint in ["", "x", "1", "1q", "*", "1x::", "18446744073709551616x"] {
        assert_eq!(parse_octet_hint(hint), None, "hint {hint}");
    }
}

#[test]
fn hinted_fields_hold_their_last_sixteen_octets() {
    let mut bytes = vec![0xaa; 4];
    bytes.extend_from_slice(&[0x11; 16]);
    assert_eq!(
        display_hinted_octets(&bytes, "20x"),
        Some("11111111111111111111111111111111".to_string())
    );
    assert_eq!(
        display_hinted_octets(&[0xff], "16x"),
        Some("ff000000000000000000000000000000".to_string())
    );
    assert_eq!(display_hinted_octets(&[0xff], "17x"), Some("0".to_string()));
    assert_eq!(
        display_hinted_octets(&[0xff; 16], "16d"),
        Some("340282366920938463463374607431768211455".to_string())
    );
    assert_eq!(display_hinted_octets(&[], "1x"), Some(String::new()));
    assert_eq!(display_hinted_octets(&[1], "1q"), None);
}

#[test]
fn text_fields_replace_what_is_not_utf8() {
    assert_eq!(
        display_hinted_octets(&[b'a', 0xff, b'b'], "255t"),
        Some("a\u{fffd}b".to_string())
    );
}

#[test]
fn object_identifiers_are_displayed_by_name() {
    let value = |text: &str| {
        BoundValue::Value(ObjectValue::Object(ObjectId {
            bytes: Vec::new(),
            text: text.to_string(),
        }))
    };
    assert_eq!(
        display(&value("1.3.6.1.2.1.1.3.0"), None),
        "SNMPv2-MIB::sysUpTime.0"
    );
    assert_eq!(display(&value("1.2.3"), None), "1.2.3");
    assert_eq!(
        display(&BoundValue::Value(ObjectValue::Opaque(vec![1, 0xab])), None),
        "01 AB "
    );
    assert_eq!(
        display(
            &BoundValue::Value(ObjectValue::BitString {
                unused_bits: 3,
                data: vec![0xa0],
            }),
            None
        ),
        "A0 "
    );
}
