use snmp_trap::mib::parser::parse_definitions;
use snmp_trap::mib::resolver::{MibResolver, OidResolution};

const TEST_MIB: &str = r#"
TEST-MIB DEFINITIONS ::= BEGIN

IMPORTS
    enterprises, OBJECT-TYPE, NOTIFICATION-TYPE
        FROM SNMPv2-SMI;

testRoot OBJECT IDENTIFIER ::= { enterprises 8072 }
testNotifications OBJECT IDENTIFIER ::= { testRoot 2 }
testNotificationPrefix OBJECT IDENTIFIER ::= { testNotifications 3 }
testSpecificNotifications OBJECT IDENTIFIER ::= { testNotificationPrefix 0 }

testTrap NOTIFICATION-TYPE
    OBJECTS { testValue }
    STATUS current
    DESCRIPTION "A test notification."
    ::= { testSpecificNotifications 1 }

testObjects OBJECT IDENTIFIER ::= { testNotifications 4 }
testValue OBJECT-TYPE
    SYNTAX Integer32
    MAX-ACCESS read-only
    STATUS current
    DESCRIPTION "A test value."
    ::= { testObjects 1 }

END
"#;

#[test]
fn resolves_exact_and_instance_oids() {
    let resolver = MibResolver::from_str(TEST_MIB);

    assert_eq!(
        resolver.resolve("1.3.6.1.4.1.8072.2.3.0.1").unwrap().name,
        "TEST-MIB::testTrap"
    );
    assert_eq!(
        resolver.resolve("1.3.6.1.4.1.8072.2.4.1.0").unwrap(),
        OidResolution {
            name: "TEST-MIB::testValue.0".to_string(),
            module: Some("TEST-MIB".to_string()),
            symbol: "testValue".to_string(),
            instance: Some("0".to_string()),
        }
    );
    assert!(resolver.resolve("1.3.6.1.4.1.8072.2.3.2.1").is_none());
}

#[test]
fn resolves_builtin_notification_oids() {
    let resolver = MibResolver::with_builtin_symbols();
    assert_eq!(
        resolver.resolve("1.3.6.1.2.1.1.3.0").unwrap().name,
        "SNMPv2-MIB::sysUpTime.0"
    );
    assert!(resolver.resolve("1.3.6.1.4.1.8072.1").is_none());
}

#[test]
fn rejects_malformed_numeric_oids() {
    let resolver = MibResolver::with_builtin_symbols();

    for oid in ["", ".", ".1.3.6", "1.3.6.", "1..3.6", "1.3.x"] {
        assert!(resolver.resolve(oid).is_none(), "{oid} should not resolve");
    }
}

#[test]
fn parses_qualified_references_and_ignores_text_blocks() {
    let resolver = MibResolver::from_str(
        r#"
QUALIFIED-MIB DEFINITIONS ::= BEGIN

testRoot OBJECT IDENTIFIER ::= { SNMPv2-SMI::enterprises 8072 } -- trailing comment

testObject OBJECT-TYPE
    SYNTAX Integer32
    MAX-ACCESS read-only
    STATUS current
    DESCRIPTION "Ignore braces and assignment-looking text: ::= { broken 1 }"
    ::= { QUALIFIED-MIB::testRoot 7 }

END
"#,
    );

    assert_eq!(
        resolver.resolve("1.3.6.1.4.1.8072.7.0").unwrap(),
        OidResolution {
            name: "QUALIFIED-MIB::testObject.0".to_string(),
            module: Some("QUALIFIED-MIB".to_string()),
            symbol: "testObject".to_string(),
            instance: Some("0".to_string()),
        }
    );
}

#[test]
fn parse_returns_empty_for_non_mib_content() {
    let parsed = parse_definitions("this is just a README file, not a MIB module at all.\n");
    assert!(
        parsed.is_empty(),
        "expected no definitions from non-MIB text, got {} definition(s)",
        parsed.len()
    );
}

#[test]
fn resolve_definitions_returns_unresolved_imports() {
    let mut resolver = MibResolver::with_builtin_symbols();
    let definitions = parse_definitions(
        r#"
NEEDS-IMPORT-MIB DEFINITIONS ::= BEGIN

dependentObject OBJECT IDENTIFIER ::= { unknownSymbol 1 }

END
"#,
    );

    let unresolved = resolver.resolve_definitions(definitions);

    let stuck = unresolved
        .get("unknownSymbol")
        .expect("unknownSymbol should appear in the unresolved map");
    assert_eq!(stuck.len(), 1);
    assert_eq!(stuck[0].name, "dependentObject");
}

#[test]
fn syntax_object_identifier_does_not_shadow_object_name() {
    let resolver = MibResolver::from_str(
        r#"
PTR-MIB DEFINITIONS ::= BEGIN
ptrRoot OBJECT IDENTIFIER ::= { enterprises 99 }
ptrValue OBJECT-TYPE
    SYNTAX OBJECT IDENTIFIER
    MAX-ACCESS read-only
    STATUS current
    DESCRIPTION "An object whose syntax is an OID."
    ::= { ptrRoot 1 }
END
"#,
    );

    assert_eq!(
        resolver.resolve("1.3.6.1.4.1.99.1.0").unwrap().name,
        "PTR-MIB::ptrValue.0"
    );
}

#[test]
fn waits_for_hyphenated_parent_defined_later() {
    let resolver = MibResolver::from_str(
        r#"
HYPHEN-MIB DEFINITIONS ::= BEGIN
childNode OBJECT IDENTIFIER ::= { acme-root 5 }
acme-root OBJECT IDENTIFIER ::= { enterprises 77 }
END
"#,
    );

    assert!(resolver.resolve("5").is_none());
    assert_eq!(
        resolver.resolve("1.3.6.1.4.1.77.5").unwrap().name,
        "HYPHEN-MIB::childNode"
    );
}

#[test]
fn resolves_references_within_the_referencing_module() {
    let resolver = MibResolver::from_str(
        r#"
FIRST-MIB DEFINITIONS ::= BEGIN
firstThing OBJECT IDENTIFIER ::= { root 1 }
root OBJECT IDENTIFIER ::= { enterprises 1 }
END

SECOND-MIB DEFINITIONS ::= BEGIN
root OBJECT IDENTIFIER ::= { enterprises 2 }
END

THIRD-MIB DEFINITIONS ::= BEGIN
IMPORTS root FROM FIRST-MIB;
thirdThing OBJECT IDENTIFIER ::= { root 3 }
END
"#,
    );

    assert_eq!(
        resolver.resolve("1.3.6.1.4.1.1.1").unwrap().name,
        "FIRST-MIB::firstThing"
    );
    assert_eq!(
        resolver.resolve("1.3.6.1.4.1.1.3").unwrap().name,
        "THIRD-MIB::thirdThing"
    );
    assert!(resolver.resolve("1.3.6.1.4.1.2.1").is_none());
}

#[test]
fn resolves_smiv1_trap_type_definitions() {
    let resolver = MibResolver::from_str(
        r#"
V1-MIB DEFINITIONS ::= BEGIN
IMPORTS enterprises FROM RFC1155-SMI
        TRAP-TYPE FROM RFC-1215;
v1Root OBJECT IDENTIFIER ::= { enterprises 4 }
v1Trap TRAP-TYPE
    ENTERPRISE v1Root
    VARIABLES { v1Root }
    DESCRIPTION "An enterprise-specific trap."
    ::= 7
END
"#,
    );

    assert_eq!(
        resolver.resolve("1.3.6.1.4.1.4.0.7").unwrap().name,
        "V1-MIB::v1Trap"
    );
}

#[test]
fn comments_can_end_before_the_end_of_line() {
    let resolver = MibResolver::from_str(
        "COMMENT-MIB DEFINITIONS ::= BEGIN\n\
         commentRoot OBJECT IDENTIFIER -- inline -- ::= { enterprises 6 }\n\
         END\n",
    );

    assert_eq!(
        resolver.resolve("1.3.6.1.4.1.6").unwrap().name,
        "COMMENT-MIB::commentRoot"
    );
}

#[test]
fn prefix_lookup_does_not_scan_unrelated_definitions() {
    let mut contents = String::from(
        "BULK-MIB DEFINITIONS ::= BEGIN\nbulkRoot OBJECT IDENTIFIER ::= { enterprises 3 }\n",
    );
    for index in 0..50_000 {
        contents.push_str(&format!(
            "bulk{index} OBJECT IDENTIFIER ::= {{ bulkRoot {index} }}\n"
        ));
    }
    contents.push_str("END\n");
    let resolver = MibResolver::from_str(&contents);

    let started = std::time::Instant::now();
    for _ in 0..10_000 {
        assert!(resolver.resolve("1.3.6.1.4.1.3.99999999.1").is_none());
    }
    assert!(
        started.elapsed() < std::time::Duration::from_secs(1),
        "unresolved lookups took {:?}",
        started.elapsed()
    );
}
