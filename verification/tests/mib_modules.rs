use snmp_trap::mib::lexer::{
    is_module_reference, is_value_name, strip_comments_and_strings, tokenize,
};
use snmp_trap::mib::load::unresolved_sample;
use snmp_trap::mib::parser::{
    module_imports, oid_definition, parse_definitions, parse_module_definitions, OidDefinition,
    OidElement, RawDefinition,
};
use snmp_trap::mib::resolver::{parse_numeric_oid, resolution, MibResolver};
use snmp_trap::mib::state::qualified_name;
use snmp_trap::mib::table::{MibSymbol, OidTable};
use snmp_trap::mib::waiting::WaitingDefinitions;

fn words(text: &str) -> Vec<String> {
    text.split(' ').map(str::to_string).collect()
}

/// The elements of a definition, written down.
fn written(definition: &RawDefinition) -> String {
    let elements: Vec<String> = definition
        .elements
        .iter()
        .map(|element| match element {
            OidElement::Number(number) => number.to_string(),
            OidElement::NamedNumber(name, number) => format!("{name}({number})"),
            OidElement::Symbol(symbol) => match &symbol.module {
                Some(module) => format!("{module}::{}", symbol.name),
                None => symbol.name.clone(),
            },
        })
        .collect();
    elements.join(" ")
}

/// The definitions of one module, written down.
fn definitions(text: &str) -> Vec<String> {
    parse_module_definitions(Some("M".to_string()), &words(text))
        .iter()
        .map(|definition| format!("{} = {}", definition.name, written(definition)))
        .collect()
}

fn symbol(name: &str) -> MibSymbol {
    MibSymbol {
        module: None,
        name: name.to_string(),
        prefix_resolves: true,
    }
}

fn definition(name: &str) -> RawDefinition {
    RawDefinition {
        module: None,
        name: name.to_string(),
        prefix_resolves: false,
        elements: Vec::new(),
    }
}

#[test]
fn comments_and_strings_are_blanked() {
    for (text, expected) in [
        ("a -- b\nc", "a \nc"),
        ("a -- b -- c", "a   c"),
        ("a -- b", "a "),
        ("a \"b\"\"c\" d", "a      d"),
        ("a \"b", "a   "),
        ("a - b", "a - b"),
        ("a --- b", "a "),
        ("\"-- x\" y", "   y"),
        ("-- \"x\n y", "\n y"),
    ] {
        assert_eq!(strip_comments_and_strings(text), expected, "{text:?}");
    }
}

#[test]
fn text_is_cut_into_tokens() {
    assert_eq!(
        tokenize("my-Name_1 OBJECT::={a(1),b};:c::d.e\u{e9}f"),
        words("my-Name_1 OBJECT ::= { a ( 1 ) , b } ; c d e f")
    );
    assert!(tokenize(" :: \t.").is_empty());
}

#[test]
fn first_letters_tell_names_apart() {
    assert!(is_value_name("sysUpTime") && !is_module_reference("sysUpTime"));
    assert!(is_module_reference("SNMPv2-SMI") && !is_value_name("SNMPv2-SMI"));
    for token in ["", "1a", "{", "-a", "\u{e9}"] {
        assert!(!is_value_name(token) && !is_module_reference(token));
    }
}

#[test]
fn definitions_are_told_by_their_keywords() {
    let braced = |width, prefix_resolves| {
        Some(OidDefinition::Braced {
            width,
            prefix_resolves,
        })
    };
    for (text, expected) in [
        ("OBJECT-TYPE", braced(1, true)),
        ("MODULE-IDENTITY", braced(1, false)),
        ("OBJECT-IDENTITY", braced(1, false)),
        ("NOTIFICATION-TYPE", braced(1, false)),
        ("OBJECT IDENTIFIER", braced(2, false)),
        ("TRAP-TYPE", Some(OidDefinition::TrapType)),
        ("OBJECT", None),
        ("OBJECT-GROUP", None),
    ] {
        assert_eq!(oid_definition(&words(text), 0), expected, "{text}");
    }
    assert_eq!(oid_definition(&words("OBJECT-TYPE"), 1), None);
}

#[test]
fn imports_are_mapped_to_their_modules() {
    let imports = module_imports(&words("IMPORTS a , B FROM X c FROM Y a FROM Z ; d FROM W"));
    let of = |name: &str| imports.get(name).map(String::as_str);
    assert_eq!(of("a"), Some("Z"));
    assert_eq!(of("B"), Some("X"));
    assert_eq!(of("c"), Some("Y"));
    assert_eq!(of("d"), None);
    assert_eq!(module_imports(&words("a FROM X")).len(), 0);
    assert_eq!(module_imports(&words("IMPORTS a FROM")).len(), 0);
}

#[test]
fn references_are_qualified() {
    assert_eq!(
        definitions(
            "IMPORTS b FROM X ; a OBJECT IDENTIFIER ::= { b 1 } \
             c OBJECT IDENTIFIER ::= { a 2 } d OBJECT IDENTIFIER ::= { Y b 3 } \
             e OBJECT IDENTIFIER ::= { f 4 }"
        ),
        vec!["a = X::b 1", "c = M::a 2", "d = Y::b 3", "e = f 4"]
    );
    assert_eq!(
        definitions("g OBJECT IDENTIFIER ::= { iso org ( 3 ) , h ( 5 ) 6 }"),
        vec!["g = iso org(3) h(5) 6"]
    );
}

#[test]
fn broken_values_define_nothing() {
    for text in [
        "a OBJECT IDENTIFIER",
        "a OBJECT IDENTIFIER ::=",
        "a OBJECT IDENTIFIER ::= 1",
        "a OBJECT IDENTIFIER ::= { X }",
        "a OBJECT IDENTIFIER ::= { X 1 }",
        "a OBJECT IDENTIFIER ::= { X Y b }",
        "a OBJECT IDENTIFIER ::= { b ( c ) }",
        "A OBJECT IDENTIFIER ::= { b 1 }",
        "a TRAP-TYPE ENTERPRISE b ::= c",
        "a TRAP-TYPE ::= 1",
        "a TRAP-TYPE ENTERPRISE ::= 1",
        "a TRAP-TYPE ENTERPRISE B ::= 1",
        "a TRAP-TYPE ENTERPRISE { b ::= 1",
    ] {
        assert!(definitions(text).is_empty(), "{text}");
    }
    assert_eq!(definitions("a OBJECT IDENTIFIER ::= { }"), vec!["a = "]);
    assert_eq!(definitions("a OBJECT IDENTIFIER ::= { b 1"), vec!["a = b 1"]);
}

#[test]
fn trap_types_name_their_notifications() {
    assert_eq!(
        definitions("a TRAP-TYPE ENTERPRISE b VARIABLES { c } ::= 7"),
        vec!["a = b 0 7"]
    );
    assert_eq!(
        definitions("a TRAP-TYPE ENTERPRISE { b 2 } ::= 7"),
        vec!["a = b 2 0 7"]
    );
}

#[test]
fn files_may_hold_several_modules() {
    let definitions = parse_definitions(
        "A DEFINITIONS ::= BEGIN x OBJECT IDENTIFIER ::= { iso 1 } END \
         B DEFINITIONS ::= BEGIN y OBJECT IDENTIFIER ::= { x 2 } END",
    );
    let modules: Vec<Option<&str>> = definitions
        .iter()
        .map(|definition| definition.module.as_deref())
        .collect();
    assert_eq!(modules, vec![Some("A"), Some("B")]);
    let definitions = parse_definitions("x OBJECT IDENTIFIER ::= { iso 1 }");
    assert_eq!(definitions[0].module, None);
}

#[test]
fn dotted_text_is_read() {
    assert_eq!(parse_numeric_oid("1.3.4294967295"), Some(vec![1, 3, u32::MAX]));
    assert_eq!(parse_numeric_oid("0"), Some(vec![0]));
    for oid in ["", ".", "1.", ".1", "1..2", "1.a", "4294967296", "1.-2"] {
        assert_eq!(parse_numeric_oid(oid), None, "{oid}");
    }
}

#[test]
fn resolutions_name_instances() {
    let named = MibSymbol {
        module: Some("M".to_string()),
        ..symbol("s")
    };
    let resolved = resolution(&named, Some("0.1".to_string()));
    assert_eq!(resolved.name, "M::s.0.1");
    assert_eq!(resolved.module.as_deref(), Some("M"));
    assert_eq!(resolved.symbol, "s");
    assert_eq!(resolved.instance.as_deref(), Some("0.1"));
    assert_eq!(resolution(&symbol("s"), None).name, "s");
    assert_eq!(qualified_name("M", "s"), "M::s");
}

#[test]
fn instances_belong_to_the_longest_known_prefix() {
    let mut resolver = MibResolver::default();
    resolver.insert_builtin("M", "outer", &[1, 2], true);
    resolver.insert_builtin("M", "inner", &[1, 2, 3], true);
    resolver.insert_builtin("M", "node", &[1, 2, 3, 4], false);
    let name = |oid: &str| resolver.resolve(oid).map(|resolution| resolution.name);
    assert_eq!(name("1.2"), Some("M::outer".to_string()));
    assert_eq!(name("1.2.9.8"), Some("M::outer.9.8".to_string()));
    assert_eq!(name("1.2.3.4"), Some("M::node".to_string()));
    assert_eq!(name("1.2.3.4.5"), Some("M::inner.4.5".to_string()));
    assert_eq!(name("1"), None);
    assert_eq!(name("2.2"), None);
}

#[test]
fn names_are_replaced_and_kept() {
    let mut resolver = MibResolver::default();
    resolver.insert_builtin("M", "old", &[1], false);
    resolver.insert_builtin("N", "other", &[2], false);
    resolver.insert_builtin("M", "new", &[1], false);
    assert_eq!(resolver.resolve("1").unwrap().name, "M::new");
    assert_eq!(resolver.resolve("2").unwrap().name, "N::other");
    let symbols = resolver.symbols_by_name();
    assert_eq!(symbols.get("new"), Some(&vec![1]));
    assert_eq!(symbols.get("M::new"), Some(&vec![1]));
    assert_eq!(symbols.get("N::other"), Some(&vec![2]));
    assert_eq!(symbols.get("old"), None);
}

#[test]
fn tables_are_kept_in_order() {
    let mut table = OidTable::new();
    for oid in [vec![2], vec![1, 3], vec![1], vec![1, 2, 9], vec![1, 2]] {
        let name = format!("{oid:?}");
        table.insert(oid, symbol(&name));
    }
    table.insert(vec![1, 3], symbol("again"));
    let oids: Vec<Vec<u32>> = (0..table.len())
        .map(|index| table.at(index).0.clone())
        .collect();
    assert_eq!(
        oids,
        vec![vec![1], vec![1, 2], vec![1, 2, 9], vec![1, 3], vec![2]]
    );
    assert_eq!(table.get(&[1, 3]).unwrap().name, "again");
    assert_eq!(table.get(&[1, 2, 9]).unwrap().name, "[1, 2, 9]");
    assert!(table.get(&[3]).is_none());
    assert!(table.get(&[]).is_none());
}

#[test]
fn waiting_definitions_are_kept_by_symbol() {
    let mut waiting = WaitingDefinitions::new();
    waiting.push("x".to_string(), definition("a"));
    waiting.push("y".to_string(), definition("b"));
    waiting.push("x".to_string(), definition("c"));
    assert_eq!(waiting.get("x").unwrap().len(), 2);
    assert!(waiting.get("z").is_none());
    let taken = waiting.take("x").unwrap();
    let names: Vec<&str> = taken
        .iter()
        .map(|definition| definition.name.as_str())
        .collect();
    assert_eq!(names, vec!["a", "c"]);
    assert!(waiting.take("x").is_none());
    let entries = waiting.into_entries();
    assert_eq!(entries.len(), 1);
    assert_eq!(entries[0].0, "y");
}

#[test]
fn values_are_built_from_their_elements() {
    let resolver = MibResolver::from_str(
        "E DEFINITIONS ::= BEGIN \
         full OBJECT IDENTIFIER ::= { iso org(3) dod(6) 1 } \
         deeper OBJECT IDENTIFIER ::= { org dod internet 9 } \
         astray OBJECT IDENTIFIER ::= { mgmt private 1 } \
         empty OBJECT IDENTIFIER ::= { } \
         named OBJECT IDENTIFIER ::= { iso(1) 77 } \
         appended OBJECT IDENTIFIER ::= { org(5) 78 } \
         unknown OBJECT IDENTIFIER ::= { nowhere(6) 79 } \
         numeric OBJECT IDENTIFIER ::= { 2 80 } \
         END",
    );
    let name = |oid: &str| resolver.resolve(oid).map(|resolution| resolution.name);
    assert_eq!(name("1.3.6.1"), Some("E::full".to_string()));
    assert_eq!(name("1.3.6.1.9"), Some("E::deeper".to_string()));
    assert_eq!(name("1.77"), Some("E::named".to_string()));
    assert_eq!(name("1.3.5.78"), Some("E::appended".to_string()));
    assert_eq!(name("6.79"), Some("E::unknown".to_string()));
    assert_eq!(name("2.80"), Some("E::numeric".to_string()));
    assert_eq!(name("1.3.6.1.4.1.1"), None);
}

#[test]
fn imports_from_modules_without_the_symbol_fall_back() {
    let mut resolver = MibResolver::with_builtin_symbols();
    let unresolved = resolver.resolve_definitions(parse_definitions(
        "A DEFINITIONS ::= BEGIN root OBJECT IDENTIFIER ::= { enterprises 1 } END \
         B DEFINITIONS ::= BEGIN other OBJECT IDENTIFIER ::= { enterprises 2 } END \
         C DEFINITIONS ::= BEGIN IMPORTS root FROM B; \
         child OBJECT IDENTIFIER ::= { root 3 } lost OBJECT IDENTIFIER ::= { gone 4 } END",
    ));
    assert_eq!(
        resolver.resolve("1.3.6.1.4.1.1.3").unwrap().name,
        "C::child"
    );
    assert_eq!(unresolved.get("gone").unwrap()[0].name, "lost");
    assert!(unresolved.get("B::root").is_none());
}

#[test]
fn samples_name_modules_where_there_are_any() {
    let mut qualified = definition("a");
    qualified.module = Some("M".to_string());
    assert_eq!(
        unresolved_sample(&vec![qualified, definition("b")]),
        vec!["M::a", "b"]
    );
}
