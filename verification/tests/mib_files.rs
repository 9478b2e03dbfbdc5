use snmp_trap::mib::files::{
    check_mib_file_size, has_mib_file_extension, mib_files, read_mib_file, EntryKind, MibFile,
    MibPath, MibScan, PathKind, ScanAction, ScanEntry, ScanEvent, MAX_MIB_DIRECTORY_DEPTH,
    MAX_MIB_FILE_BYTES, MAX_MIB_FILE_COUNT,
};
use snmp_trap::mib::load::{MibLoad, MibSource, MibWarning};
use snmp_trap::mib::paths::path_precedes;
use snmp_trap::mib::resolver::MibResolver;

const TEST_MIB: &str = r#"
TEST-MIB DEFINITIONS ::= BEGIN

IMPORTS
    enterprises, OBJECT-TYPE, NOTIFICATION-TYPE
        FROM SNMPv2-SMI;

testRoot OBJECT IDENTIFIER ::= { enterprises 8072 }
testNotifications OBJECT IDENTIFIER ::= { testRoot 2 }
testNotificationPrefix OBJECT IDENTIFIER ::= { testNotifications 3 }
testSpecificNotifications OBJECT IDENTIFIER ::= { testNotificationPrefix 0 }

testTrap NOTIFICATION-TYPE
    OBJECTS { testValue }
    STATUS current
    DESCRIPTION "A test notification."
    ::= { testSpecificNotifications 1 }

testObjects OBJECT IDENTIFIER ::= { testNotifications 4 }
testValue OBJECT-TYPE
    SYNTAX Integer32
    MAX-ACCESS read-only
    STATUS current
    DESCRIPTION "A test value."
    ::= { testObjects 1 }

END
"#;

fn source(path: &str, required: bool, contents: &str) -> MibSource {
    MibSource {
        path: path.to_string(),
        required,
        contents: Ok(contents.to_string()),
    }
}

/// A source that a scan has found and a read has passed.
fn found(path: &str, contents: &str) -> MibSource {
    source(path, false, contents)
}

fn load(sources: Vec<MibSource>) -> MibLoad {
    MibResolver::from_paths(&vec![Ok(sources)])
}

fn loaded(sources: Vec<MibSource>) -> MibResolver {
    load(sources).resolver.unwrap()
}

fn load_error(paths: Vec<Result<Vec<MibSource>, String>>) -> String {
    match MibResolver::from_paths(&paths).resolver {
        Ok(_) => panic!("the load should fail"),
        Err(error) => error,
    }
}

/// The components of a path.
fn components(path: &str) -> Vec<Vec<u8>> {
    path.split('/')
        .map(|component| component.as_bytes().to_vec())
        .collect()
}

fn entry(id: usize, path: &str, kind: EntryKind) -> ScanEvent {
    let extension = path
        .rsplit('/')
        .next()
        .and_then(|name| name.rsplit_once('.'))
        .map(|(_, extension)| extension.to_string());
    ScanEvent::Entry(ScanEntry {
        id,
        path: path.to_string(),
        kind,
        extension,
        canonical: path.to_string(),
        components: components(path),
    })
}

fn ids(scan: MibScan) -> Vec<usize> {
    scan.into_files().iter().map(|file| file.id).collect()
}

#[test]
fn loads_single_mib_file() {
    assert_eq!(
        mib_files(3, "TEST-MIB.txt", PathKind::File),
        Ok(MibPath::File(MibFile {
            id: 3,
            required: true,
        }))
    );

    let resolver = loaded(vec![source("TEST-MIB.txt", true, TEST_MIB)]);

    assert_eq!(
        resolver.resolve("1.3.6.1.4.1.8072.2.3.0.1").unwrap().name,
        "TEST-MIB::testTrap"
    );
}

#[test]
fn loads_mib_files_recursively() {
    assert_eq!(
        mib_files(0, "mibs", PathKind::Directory),
        Ok(MibPath::Directory)
    );
    let mut scan = MibScan::new("mibs".to_string());
    let step = scan.collect_mib_files(entry(0, "mibs/vendor", EntryKind::Directory));
    assert!(matches!(step, ScanAction::Open(0)));
    let step = scan.collect_mib_files(entry(1, "mibs/vendor/devices", EntryKind::Directory));
    assert!(matches!(step, ScanAction::Open(1)));
    assert_eq!(scan.depth(), 3);
    let step = scan.collect_mib_files(entry(
        2,
        "mibs/vendor/devices/TEST-MIB.txt",
        EntryKind::File,
    ));
    assert!(matches!(step, ScanAction::Next));
    assert!(matches!(scan.collect_mib_files(ScanEvent::End), ScanAction::Next));
    assert!(matches!(scan.collect_mib_files(ScanEvent::End), ScanAction::Next));
    assert!(matches!(scan.collect_mib_files(ScanEvent::End), ScanAction::Done));
    assert_eq!(
        scan.into_files(),
        vec![MibFile {
            id: 2,
            required: false,
        }]
    );

    let resolver = loaded(vec![found("mibs/vendor/devices/TEST-MIB.txt", TEST_MIB)]);

    assert_eq!(
        resolver.resolve("1.3.6.1.4.1.8072.2.4.1.0").unwrap().name,
        "TEST-MIB::testValue.0"
    );
}

#[test]
fn skips_non_mib_extensions_in_directories() {
    let mut scan = MibScan::new("mibs".to_string());
    for (id, path) in ["mibs/TEST-MIB.txt", "mibs/README.md", "mibs/archive.bin"]
        .iter()
        .enumerate()
    {
        let step = scan.collect_mib_files(entry(id, path, EntryKind::File));
        assert!(matches!(step, ScanAction::Next));
    }
    assert!(matches!(scan.collect_mib_files(ScanEvent::End), ScanAction::Done));
    assert_eq!(ids(scan), vec![0]);

    let resolver = loaded(vec![found("mibs/TEST-MIB.txt", TEST_MIB)]);

    assert_eq!(
        resolver.resolve("1.3.6.1.4.1.8072.2.3.0.1").unwrap().name,
        "TEST-MIB::testTrap"
    );
}

#[test]
fn rejects_oversized_explicit_mib_file() {
    let error =
        check_mib_file_size("TOO-LARGE-MIB.txt", Ok(MAX_MIB_FILE_BYTES + 1)).unwrap_err();
    let error = load_error(vec![Ok(vec![MibSource {
        path: "TOO-LARGE-MIB.txt".to_string(),
        required: true,
        contents: Err(error),
    }])]);

    assert!(error.contains("maximum supported size"));
    assert_eq!(
        error,
        "MIB file TOO-LARGE-MIB.txt is larger than the maximum supported size of 8388608 bytes"
    );
    assert_eq!(check_mib_file_size("MIB.txt", Ok(MAX_MIB_FILE_BYTES)), Ok(()));
}

#[test]
fn skips_oversized_mib_files_discovered_in_directories() {
    let error =
        check_mib_file_size("TOO-LARGE-MIB.txt", Ok(MAX_MIB_FILE_BYTES + 1)).unwrap_err();
    let load = load(vec![
        found("TEST-MIB.txt", TEST_MIB),
        MibSource {
            path: "TOO-LARGE-MIB.txt".to_string(),
            required: false,
            contents: Err(error.clone()),
        },
    ]);

    assert_eq!(
        load.resolver
            .unwrap()
            .resolve("1.3.6.1.4.1.8072.2.3.0.1")
            .unwrap()
            .name,
        "TEST-MIB::testTrap"
    );
    assert_eq!(
        load.warnings,
        vec![MibWarning::Unreadable {
            path: "TOO-LARGE-MIB.txt".to_string(),
            error,
        }]
    );
}

#[test]
fn rejects_too_deep_mib_directories() {
    let mut scan = MibScan::new("mibs".to_string());
    let mut path = "mibs".to_string();
    for index in 0..MAX_MIB_DIRECTORY_DEPTH {
        path = format!("{path}/level-{index}");
        let step = scan.collect_mib_files(entry(index, &path, EntryKind::Directory));
        assert!(matches!(step, ScanAction::Open(opened) if opened == index));
    }
    path = format!("{path}/level-{MAX_MIB_DIRECTORY_DEPTH}");
    let step = scan.collect_mib_files(entry(99, &path, EntryKind::Directory));

    match step {
        ScanAction::Fail(error) => {
            assert!(error.contains("maximum recursive scan depth"));
            assert_eq!(
                error,
                format!("MIB directory {path} exceeds maximum recursive scan depth of 32")
            );
        }
        _ => panic!("a directory this deep should not be opened"),
    }
}

#[test]
fn skips_symlinked_directories() {
    let mut scan = MibScan::new("mibs".to_string());
    let step = scan.collect_mib_files(entry(0, "mibs/TEST-MIB.txt", EntryKind::File));
    assert!(matches!(step, ScanAction::Next));
    let step = scan.collect_mib_files(entry(1, "mibs/loop", EntryKind::LinkToOther));
    assert!(matches!(step, ScanAction::Next));
    assert!(matches!(scan.collect_mib_files(ScanEvent::End), ScanAction::Done));
    assert_eq!(ids(scan), vec![0]);

    let resolver = loaded(vec![found("mibs/TEST-MIB.txt", TEST_MIB)]);

    assert_eq!(
        resolver.resolve("1.3.6.1.4.1.8072.2.3.0.1").unwrap().name,
        "TEST-MIB::testTrap"
    );
}

#[test]
fn follows_symlinked_mib_files() {
    assert_eq!(
        mib_files(7, "TEST-MIB.my", PathKind::LinkToFile),
        Ok(MibPath::File(MibFile {
            id: 7,
            required: true,
        }))
    );

    let resolver = loaded(vec![source("TEST-MIB.my", true, TEST_MIB)]);

    assert_eq!(
        resolver.resolve("1.3.6.1.4.1.8072.2.3.0.1").unwrap().name,
        "TEST-MIB::testTrap"
    );
}

#[test]
fn rejects_symlinked_root_directories() {
    let error = mib_files(0, "link", PathKind::LinkToDirectory).unwrap_err();
    let error = load_error(vec![Err(error)]);

    assert!(error.contains("symlinked directory"));
}

#[test]
fn rejects_missing_mib_paths() {
    let error = mib_files(0, "missing", PathKind::Unreadable("not found".to_string())).unwrap_err();
    let error = load_error(vec![Err(error)]);

    assert!(error.contains("Failed to read MIB path"));
    assert_eq!(error, "Failed to read MIB path missing: not found");
}

#[test]
fn from_paths_keeps_loading_when_a_file_is_not_a_mib() {
    let load = load(vec![
        found(
            "NOT-A-MIB.txt",
            "just some plain text, no MIB module here\n",
        ),
        found("VALID-MIB.txt", TEST_MIB),
    ]);

    assert_eq!(
        load.resolver
            .unwrap()
            .resolve("1.3.6.1.4.1.8072.2.3.0.1")
            .unwrap()
            .name,
        "TEST-MIB::testTrap"
    );
    assert_eq!(
        load.warnings,
        vec![MibWarning::NoDefinitions {
            path: "NOT-A-MIB.txt".to_string(),
        }]
    );
}

#[test]
fn from_paths_keeps_loading_when_a_definition_has_an_unknown_import() {
    let load = load(vec![
        found(
            "DEPENDS-ON-MISSING.txt",
            r#"
DEPENDS-ON-MISSING DEFINITIONS ::= BEGIN

needsMissing OBJECT IDENTIFIER ::= { unloadedRoot 99 }

END
"#,
        ),
        found("VALID-MIB.txt", TEST_MIB),
    ]);

    assert_eq!(
        load.resolver
            .unwrap()
            .resolve("1.3.6.1.4.1.8072.2.3.0.1")
            .unwrap()
            .name,
        "TEST-MIB::testTrap"
    );
    assert_eq!(
        load.warnings,
        vec![MibWarning::Unresolved {
            symbol: "unloadedRoot".to_string(),
            affected_definitions: 1,
            sample: vec!["DEPENDS-ON-MISSING::needsMissing".to_string()],
        }]
    );
}

#[test]
fn cross_mib_imports_resolution() {
    let resolver = loaded(vec![
        found(
            "MIB-A.txt",
            r#"
MIB-A DEFINITIONS ::= BEGIN

IMPORTS
    enterprises
        FROM SNMPv2-SMI;

vendorRoot OBJECT IDENTIFIER ::= { enterprises 99999 }

END
"#,
        ),
        found(
            "MIB-B.txt",
            r#"
MIB-B DEFINITIONS ::= BEGIN

IMPORTS
    OBJECT-TYPE
        FROM SNMPv2-SMI;

deviceStatus OBJECT-TYPE
    SYNTAX Integer32
    MAX-ACCESS read-only
    STATUS current
    DESCRIPTION "Device status."
    ::= { vendorRoot 1 }

END
"#,
        ),
    ]);

    assert_eq!(
        resolver.resolve("1.3.6.1.4.1.99999").unwrap().name,
        "MIB-A::vendorRoot"
    );

    let resolution = resolver.resolve("1.3.6.1.4.1.99999.1.0").unwrap();
    assert_eq!(resolution.name, "MIB-B::deviceStatus.0");
    assert_eq!(resolution.module.as_deref(), Some("MIB-B"));
    assert_eq!(resolution.symbol, "deviceStatus");
    assert_eq!(resolution.instance.as_deref(), Some("0"));
}

#[test]
fn same_name_in_different_modules_resolves_both() {
    let mut sources = Vec::new();
    for (module, number) in [("FIRST-MIB", 11111), ("SECOND-MIB", 22222)] {
        sources.push(found(
            &format!("{module}.txt"),
            &format!(
                "{module} DEFINITIONS ::= BEGIN\n\
                 IMPORTS enterprises FROM SNMPv2-SMI;\n\
                 sharedName OBJECT IDENTIFIER ::= {{ enterprises {number} }}\n\
                 childName OBJECT IDENTIFIER ::= {{ sharedName 1 }}\n\
                 END\n"
            ),
        ));
    }

    let resolver = loaded(sources);

    assert_eq!(
        resolver.resolve("1.3.6.1.4.1.11111.1").unwrap().name,
        "FIRST-MIB::childName"
    );
    assert_eq!(
        resolver.resolve("1.3.6.1.4.1.22222.1").unwrap().name,
        "SECOND-MIB::childName"
    );
}

#[test]
fn loads_mib_files_that_are_not_utf8() {
    let mut contents =
        b"LATIN1-MIB DEFINITIONS ::= BEGIN\nlatinRoot OBJECT IDENTIFIER ::= { enterprises 5 }\n-- caf"
            .to_vec();
    contents.push(0xe9);
    contents.extend_from_slice(b"\nEND\n");

    let text = read_mib_file("LATIN1-MIB.txt", Ok(contents)).unwrap();
    assert!(text.ends_with("-- caf\u{fffd}\nEND\n"));
    let resolver = loaded(vec![source("LATIN1-MIB.txt", true, &text)]);

    assert_eq!(
        resolver.resolve("1.3.6.1.4.1.5").unwrap().name,
        "LATIN1-MIB::latinRoot"
    );
}

#[test]
fn extensions_are_compared_without_case() {
    for extension in ["mib", "MIB", "my", "My", "smi", "SmI", "txt", "TXT"] {
        assert!(has_mib_file_extension(Some(extension)), "{extension}");
    }
    for extension in ["", "m", "mibs", "md", "bin", "t\u{fffd}t"] {
        assert!(!has_mib_file_extension(Some(extension)), "{extension}");
    }
    assert!(has_mib_file_extension(None));
}

#[test]
fn configured_paths_that_cannot_be_loaded_say_why() {
    assert_eq!(
        mib_files(0, "a", PathKind::DanglingLink("gone".to_string())),
        Err("Failed to read symlinked MIB path a: gone".to_string())
    );
    assert_eq!(
        mib_files(0, "a", PathKind::LinkToDirectory),
        Err(
            "MIB path a is a symlinked directory; symlinked directories are not followed"
                .to_string()
        )
    );
    assert_eq!(
        mib_files(0, "a", PathKind::Other),
        Err("MIB path a is not a file or directory".to_string())
    );
}

#[test]
fn scans_take_no_file_twice() {
    let mut scan = MibScan::new("mibs".to_string());
    for id in 0..3 {
        let step = scan.collect_mib_files(ScanEvent::Entry(ScanEntry {
            id,
            path: format!("mibs/link-{id}"),
            kind: if id == 0 {
                EntryKind::File
            } else {
                EntryKind::LinkToFile
            },
            extension: None,
            canonical: "mibs/link-0".to_string(),
            components: components("mibs/link-0"),
        }));
        assert!(matches!(step, ScanAction::Next));
    }
    assert_eq!(ids(scan), vec![0]);
}

#[test]
fn files_are_loaded_in_the_order_of_their_paths() {
    let mut scan = MibScan::new("mibs".to_string());
    for (id, path) in [
        "mibs/b",
        "mibs/a-b",
        "mibs/a/c",
        "mibs/a.txt",
        "mibs/a/b",
        "mibs/B",
        "mibs/a/b2",
    ]
    .iter()
    .enumerate()
    {
        let step = scan.collect_mib_files(entry(id, path, EntryKind::File));
        assert!(matches!(step, ScanAction::Next));
    }
    assert_eq!(ids(scan), vec![5, 4, 6, 2, 1, 3, 0]);

    let b = components("b");
    assert!(path_precedes(&components("a/z"), &b));
    assert!(path_precedes(&components("a"), &components("a/z")));
    assert!(!path_precedes(&b, &b));
    assert!(path_precedes(&Vec::new(), &b));
}

#[test]
fn scans_stay_within_the_maximum_file_count() {
    let mut scan = MibScan::new("mibs".to_string());
    for id in 0..MAX_MIB_FILE_COUNT {
        assert_eq!(
            scan.push_mib_file(id, Some("mib"), format!("{id}"), Vec::new(), false),
            Ok(())
        );
    }
    assert_eq!(
        scan.push_mib_file(0, Some("md"), "other".to_string(), Vec::new(), false),
        Ok(())
    );
    assert_eq!(
        scan.push_mib_file(0, Some("md"), "other".to_string(), Vec::new(), true),
        Err("MIB path scan exceeded maximum file count of 16384".to_string())
    );
    assert_eq!(ids(scan).len(), MAX_MIB_FILE_COUNT);
}

#[test]
fn scans_report_what_they_cannot_read() {
    let mut scan = MibScan::new("mibs".to_string());
    let failure = |step: ScanAction| match step {
        ScanAction::Fail(error) => error,
        _ => panic!("the scan should fail"),
    };
    assert_eq!(
        failure(scan.collect_mib_files(ScanEvent::DirectoryUnreadable("denied".to_string()))),
        "Failed to read MIB directory mibs: denied"
    );
    assert_eq!(
        failure(scan.collect_mib_files(ScanEvent::EntryUnreadable("denied".to_string()))),
        "Failed to read MIB directory entry in mibs: denied"
    );
    assert_eq!(
        failure(scan.collect_mib_files(ScanEvent::EntryTypeUnreadable("denied".to_string()))),
        "Failed to read MIB directory entry type in mibs: denied"
    );
    assert!(matches!(
        scan.collect_mib_files(entry(0, "mibs/dangling", EntryKind::DanglingLink)),
        ScanAction::WarnUnreadable
    ));
    assert!(matches!(
        scan.collect_mib_files(entry(0, "mibs/socket", EntryKind::Other)),
        ScanAction::Next
    ));
}

#[test]
fn unreadable_files_fail_only_where_they_are_required() {
    let unreadable = |required| MibSource {
        path: "A".to_string(),
        required,
        contents: read_mib_file("A", Err("denied".to_string())),
    };
    assert_eq!(
        load_error(vec![Ok(vec![unreadable(true)])]),
        "Failed to read MIB file A: denied"
    );
    assert!(load(vec![unreadable(false)]).resolver.is_ok());
    assert_eq!(
        check_mib_file_size("A", Err("denied".to_string())),
        Err("Failed to read MIB file A: denied".to_string())
    );
}

#[test]
fn unresolved_definitions_are_sampled() {
    let mut contents = "MANY-MIB DEFINITIONS ::= BEGIN\n".to_string();
    for index in 0..7 {
        contents.push_str(&format!(
            "many{index} OBJECT IDENTIFIER ::= {{ missingRoot {index} }}\n"
        ));
    }
    contents.push_str("END\n");
    let load = load(vec![found("MANY-MIB", &contents)]);
    assert_eq!(
        load.warnings,
        vec![MibWarning::Unresolved {
            symbol: "missingRoot".to_string(),
            affected_definitions: 7,
            sample: vec![
                "MANY-MIB::many0".to_string(),
                "MANY-MIB::many1".to_string(),
                "MANY-MIB::many2".to_string(),
                "MANY-MIB::many3".to_string(),
                "MANY-MIB::many4".to_string(),
                "... and 2 more".to_string(),
            ],
        }]
    );
}

#[test]
fn definitions_are_unresolved_as_often_as_they_are_given() {
    let contents = "SOME-MIB DEFINITIONS ::= BEGIN\n\
         known OBJECT IDENTIFIER ::= { enterprises 1 }\n\
         lost OBJECT IDENTIFIER ::= { missingRoot 1 }\n\
         END\n";
    let load = load(vec![found("A", contents), found("B", contents)]);
    assert_eq!(
        load.warnings,
        vec![MibWarning::Unresolved {
            symbol: "missingRoot".to_string(),
            affected_definitions: 2,
            sample: vec!["SOME-MIB::lost".to_string(), "SOME-MIB::lost".to_string()],
        }]
    );
}

#[test]
fn scans_take_the_first_of_the_files_with_one_canonical_path() {
    let mut scan = MibScan::new("mibs".to_string());
    for (id, extension, canonical, kind) in [
        (0, Some("bin"), "a", EntryKind::File),
        (1, Some("mib"), "a", EntryKind::LinkToFile),
        (2, None, "b", EntryKind::File),
        (3, Some("MY"), "a", EntryKind::File),
        (4, Some("txt"), "c", EntryKind::Other),
    ] {
        let step = scan.collect_mib_files(ScanEvent::Entry(ScanEntry {
            id,
            path: format!("mibs/{id}"),
            kind,
            extension: extension.map(str::to_string),
            canonical: canonical.to_string(),
            components: components(&format!("{id}")),
        }));
        assert!(matches!(step, ScanAction::Next));
    }
    assert_eq!(
        scan.into_files(),
        vec![
            MibFile {
                id: 1,
                required: false,
            },
            MibFile {
                id: 2,
                required: false,
            },
        ]
    );
}
