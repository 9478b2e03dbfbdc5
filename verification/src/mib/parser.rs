//! The object identifier definitions of MIB modules.

use crate::mib::lexer::{
    is_module_reference, is_value_name, module_reference, strip_comments_and_strings, stripped,
    tokenize, tokens, value_name,
};
use crate::text::{opt_text, parse_u32, read_unsigned, same_text, texts};
use vstd::hash_map::StringHashMap;
use vstd::hash_set::StringHashSet;
use vstd::prelude::*;
use vstd::slice::slice_subrange;
use vstd::string::*;

verus! {

/// A reference to another object identifier, qualified with the module it is expected to come from
/// when that can be determined from the referencing module's own definitions or its `IMPORTS`.
#[derive(Clone, Debug)]
pub struct SymbolRef {
    pub module: Option<String>,
    pub name: String,
}

/// A [`SymbolRef`] as characters.
pub ghost struct SymbolRefView {
    pub module: Option<Seq<char>>,
    pub name: Seq<char>,
}

impl View for SymbolRef {
    type V = SymbolRefView;

    open spec fn view(&self) -> SymbolRefView {
        SymbolRefView { module: opt_text(self.module), name: self.name@ }
    }
}

/// One element of an object identifier value.
#[derive(Clone, Debug)]
pub enum OidElement {
    Symbol(SymbolRef),
    Number(u32),
    NamedNumber(String, u32),
}

/// An [`OidElement`] as characters.
pub ghost enum ElementView {
    Symbol(SymbolRefView),
    Number(u32),
    NamedNumber(Seq<char>, u32),
}

impl View for OidElement {
    type V = ElementView;

    open spec fn view(&self) -> ElementView {
        match self {
            OidElement::Symbol(symbol) => ElementView::Symbol(symbol@),
            OidElement::Number(number) => ElementView::Number(*number),
            OidElement::NamedNumber(name, number) => ElementView::NamedNumber(name@, *number),
        }
    }
}

pub open spec fn elements_view(elements: Seq<OidElement>) -> Seq<ElementView> {
    elements.map_values(|element: OidElement| element@)
}

/// A definition of an object identifier before its references are resolved.
#[derive(Clone, Debug)]
pub struct RawDefinition {
    pub module: Option<String>,
    pub name: String,
    pub prefix_resolves: bool,
    pub elements: Vec<OidElement>,
}

/// A [`RawDefinition`] as characters.
pub ghost struct DefinitionView {
    pub module: Option<Seq<char>>,
    pub name: Seq<char>,
    pub prefix_resolves: bool,
    pub elements: Seq<ElementView>,
}

impl View for RawDefinition {
    type V = DefinitionView;

    open spec fn view(&self) -> DefinitionView {
        DefinitionView {
            module: opt_text(self.module),
            name: self.name@,
            prefix_resolves: self.prefix_resolves,
            elements: elements_view(self.elements@),
        }
    }
}

pub open spec fn definitions_view(definitions: Seq<RawDefinition>) -> Seq<DefinitionView> {
    definitions.map_values(|definition: RawDefinition| definition@)
}

/// How a definition states its value.
#[derive(Clone, Copy, Debug, PartialEq, Eq, Structural)]
pub enum OidDefinition {
    /// A definition whose value is a braced object identifier, `::= { parent 1 }`, starting `width`
    /// tokens after the definition name.
    Braced { width: usize, prefix_resolves: bool },
    /// An SMIv1 `TRAP-TYPE` definition, `ENTERPRISE parent ... ::= 1`.
    TrapType,
}

/// The kind of definition that the token at `index` opens.
pub open spec fn definition_kind(tokens: Seq<Seq<char>>, index: int) -> Option<OidDefinition> {
    if !(0 <= index < tokens.len()) {
        None
    } else if tokens[index] == "OBJECT-TYPE"@ {
        Some(OidDefinition::Braced { width: 1, prefix_resolves: true })
    } else if tokens[index] == "MODULE-IDENTITY"@ || tokens[index] == "OBJECT-IDENTITY"@
        || tokens[index] == "NOTIFICATION-TYPE"@ {
        Some(OidDefinition::Braced { width: 1, prefix_resolves: false })
    } else if tokens[index] == "TRAP-TYPE"@ {
        Some(OidDefinition::TrapType)
    } else if tokens[index] == "OBJECT"@ && index + 1 < tokens.len() && tokens[index + 1]
        == "IDENTIFIER"@ {
        Some(OidDefinition::Braced { width: 2, prefix_resolves: false })
    } else {
        None
    }
}

/// The kind of definition that the token at `index` opens.
pub fn oid_definition(tokens: &[String], index: usize) -> (r: Option<OidDefinition>)
    ensures
        r == definition_kind(texts(tokens@), index as int),
{
    if index >= tokens.len() {
        return None;
    }
    let token = tokens[index].as_str();
    assert(texts(tokens@)[index as int] == token@);
    if same_text(token, "OBJECT-TYPE") {
        Some(OidDefinition::Braced { width: 1, prefix_resolves: true })
    } else if same_text(token, "MODULE-IDENTITY") || same_text(token, "OBJECT-IDENTITY")
        || same_text(token, "NOTIFICATION-TYPE") {
        Some(OidDefinition::Braced { width: 1, prefix_resolves: false })
    } else if same_text(token, "TRAP-TYPE") {
        Some(OidDefinition::TrapType)
    } else if same_text(token, "OBJECT") && tokens.len() - index > 1 && same_text(
        tokens[index + 1].as_str(),
        "IDENTIFIER",
    ) {
        Some(OidDefinition::Braced { width: 2, prefix_resolves: false })
    } else {
        None
    }
}

/// The first index from `index` on where `word` stands, or the number of tokens.
pub open spec fn position(tokens: Seq<Seq<char>>, word: Seq<char>, index: int) -> int
    decreases tokens.len() - index,
{
    if index >= tokens.len() || tokens[index] == word {
        index
    } else {
        position(tokens, word, index + 1)
    }
}

pub proof fn lemma_position(tokens: Seq<Seq<char>>, word: Seq<char>, index: int)
    requires
        index <= tokens.len(),
    ensures
        index <= position(tokens, word, index) <= tokens.len(),
    decreases tokens.len() - index,
{
    if index < tokens.len() && tokens[index] != word {
        lemma_position(tokens, word, index + 1);
    }
}

fn find_token(tokens: &[String], word: &str, start: usize) -> (r: usize)
    requires
        start <= tokens@.len(),
    ensures
        r == position(texts(tokens@), word@, start as int),
        start <= r <= tokens@.len(),
        r < tokens@.len() ==> texts(tokens@)[r as int] == word@,
{
    let mut index: usize = start;
    while index < tokens.len()
        invariant_except_break
            position(texts(tokens@), word@, index as int) == position(
                texts(tokens@),
                word@,
                start as int,
            ),
        invariant
            start <= index <= tokens@.len(),
        ensures
            index == position(texts(tokens@), word@, start as int),
            index < tokens@.len() ==> texts(tokens@)[index as int] == word@,
        decreases tokens@.len() - index,
    {
        assert(texts(tokens@)[index as int] == tokens@[index as int]@);
        if same_text(tokens[index].as_str(), word) {
            break ;
        }
        index += 1;
    }
    index
}

/// The information needed to qualify symbol references made inside one module.
pub struct ModuleScope<'a> {
    pub module: Option<&'a str>,
    pub imports: &'a StringHashMap<String>,
    pub local_names: &'a StringHashSet,
}

/// A [`ModuleScope`] as characters.
pub ghost struct ScopeView {
    pub module: Option<Seq<char>>,
    pub imports: Map<Seq<char>, Seq<char>>,
    pub local_names: Set<Seq<char>>,
}

impl<'a> View for ModuleScope<'a> {
    type V = ScopeView;

    open spec fn view(&self) -> ScopeView {
        ScopeView {
            module: match self.module {
                Some(module) => Some(module@),
                None => None,
            },
            imports: self.imports@.map_values(|module: String| module@),
            local_names: self.local_names@,
        }
    }
}

/// A reference to `name`: qualified by the module written before it, by the referencing module if
/// that defines the name, or else by the module that the name is imported from.
pub open spec fn qualified_reference(
    scope: ScopeView,
    name: Seq<char>,
    explicit_module: Option<Seq<char>>,
) -> SymbolRefView {
    let module = if explicit_module is Some {
        explicit_module
    } else if scope.local_names.contains(name) && scope.module is Some {
        scope.module
    } else if scope.imports.contains_key(name) {
        Some(scope.imports[name])
    } else {
        None
    };
    SymbolRefView { module, name }
}

impl<'a> ModuleScope<'a> {
    /// A reference to `name`, qualified as far as the module tells.
    pub fn symbol_ref(&self, name: &str, explicit_module: Option<&str>) -> (r: SymbolRef)
        ensures
            r@ == qualified_reference(
                self@,
                name@,
                match explicit_module {
                    Some(module) => Some(module@),
                    None => None,
                },
            ),
    {
        let module: Option<String> = match explicit_module {
            Some(module) => Some(module.to_owned()),
            None => {
                let local: Option<String> = if self.local_names.contains(name) {
                    match self.module {
                        Some(module) => Some(module.to_owned()),
                        None => None,
                    }
                } else {
                    None
                };
                match local {
                    Some(module) => Some(module),
                    None => match self.imports.get(name) {
                        Some(module) => Some(module.clone()),
                        None => None,
                    },
                }
            },
        };
        SymbolRef { module, name: name.to_owned() }
    }
}

/// The number in parentheses that follows the token at `index`.
pub open spec fn parenthesized_number(tokens: Seq<Seq<char>>, index: int) -> Option<u32> {
    if index + 3 < tokens.len() && tokens[index + 1] == "("@ && tokens[index + 3] == ")"@ {
        match read_unsigned(tokens[index + 2], u32::MAX as nat) {
            Some(number) => Some(number as u32),
            None => None,
        }
    } else {
        None
    }
}

/// The elements that the tokens from `index` on write, behind a module reference in `pending`.
/// A module reference must be followed by the symbol it qualifies.
pub open spec fn oid_elements(
    tokens: Seq<Seq<char>>,
    scope: ScopeView,
    index: int,
    pending: Option<Seq<char>>,
) -> Option<Seq<ElementView>>
    decreases tokens.len() - index,
{
    if index >= tokens.len() {
        if pending is None {
            Some(Seq::empty())
        } else {
            None
        }
    } else {
        let token = tokens[index];
        if token == ","@ || token == ";"@ {
            oid_elements(tokens, scope, index + 1, pending)
        } else if read_unsigned(token, u32::MAX as nat) is Some {
            let number = read_unsigned(token, u32::MAX as nat)->0 as u32;
            if pending is Some {
                None
            } else {
                prepended(
                    ElementView::Number(number),
                    oid_elements(tokens, scope, index + 1, None),
                )
            }
        } else if parenthesized_number(tokens, index) is Some {
            if pending is Some {
                None
            } else {
                prepended(
                    ElementView::NamedNumber(token, parenthesized_number(tokens, index)->0),
                    oid_elements(tokens, scope, index + 4, None),
                )
            }
        } else if module_reference(token) && pending is None {
            oid_elements(tokens, scope, index + 1, Some(token))
        } else if value_name(token) {
            prepended(
                ElementView::Symbol(qualified_reference(scope, token, pending)),
                oid_elements(tokens, scope, index + 1, None),
            )
        } else {
            None
        }
    }
}

/// `first` before the elements of `rest`, if there are any to be had.
pub open spec fn prepended(first: ElementView, rest: Option<Seq<ElementView>>) -> Option<
    Seq<ElementView>,
> {
    match rest {
        Some(rest) => Some(seq![first] + rest),
        None => None,
    }
}

/// `front` before the elements of `rest`, if there are any to be had.
pub open spec fn joined(front: Seq<ElementView>, rest: Option<Seq<ElementView>>) -> Option<
    Seq<ElementView>,
> {
    match rest {
        Some(rest) => Some(front + rest),
        None => None,
    }
}

proof fn lemma_joined(front: Seq<ElementView>, first: ElementView, rest: Option<Seq<ElementView>>)
    ensures
        joined(front, prepended(first, rest)) == joined(front.push(first), rest),
{
    if let Some(rest) = rest {
        assert(front + (seq![first] + rest) =~= front.push(first) + rest);
    }
}

/// What a parse of elements gives.
pub open spec fn parsed_elements(elements: Option<Vec<OidElement>>) -> Option<Seq<ElementView>> {
    match elements {
        Some(elements) => Some(elements_view(elements@)),
        None => None,
    }
}

fn find_parenthesized_number(tokens: &[String], index: usize) -> (r: Option<u32>)
    requires
        index < tokens@.len(),
    ensures
        r == parenthesized_number(texts(tokens@), index as int),
{
    if tokens.len() - index > 3 && same_text(tokens[index + 1].as_str(), "(") && same_text(
        tokens[index + 3].as_str(),
        ")",
    ) {
        parse_u32(tokens[index + 2].as_str())
    } else {
        None
    }
}

/// Parses the elements of an object identifier value.
pub fn parse_oid_elements(tokens: &[String], scope: &ModuleScope<'_>) -> (r: Option<
    Vec<OidElement>,
>)
    ensures
        parsed_elements(r) == oid_elements(texts(tokens@), scope@, 0, None),
{
    let mut elements: Vec<OidElement> = Vec::new();
    let mut index: usize = 0;
    let mut pending: Option<&str> = None;
    let ghost words = texts(tokens@);
    assert(joined(elements_view(elements@), oid_elements(words, scope@, 0, None)) == oid_elements(
        words,
        scope@,
        0,
        None,
    )) by {
        if let Some(rest) = oid_elements(words, scope@, 0, None) {
            assert(elements_view(elements@) + rest =~= rest);
        }
    }
    while index < tokens.len()
        invariant
            words == texts(tokens@),
            index <= tokens@.len(),
            joined(
                elements_view(elements@),
                oid_elements(
                    words,
                    scope@,
                    index as int,
                    match pending {
                        Some(module) => Some(module@),
                        None => None,
                    },
                ),
            ) == oid_elements(words, scope@, 0, None),
        decreases tokens@.len() - index,
    {
        let token = tokens[index].as_str();
        let ghost before = elements_view(elements@);
        assert(words[index as int] == token@);
        if same_text(token, ",") || same_text(token, ";") {
            index += 1;
        } else if let Some(number) = parse_u32(token) {
            if pending.is_some() {
                return None;
            }
            elements.push(OidElement::Number(number));
            proof {
                assert(elements_view(elements@) =~= before.push(ElementView::Number(number)));
                lemma_joined(
                    before,
                    ElementView::Number(number),
                    oid_elements(words, scope@, index + 1, None),
                );
            }
            index += 1;
        } else if let Some(number) = find_parenthesized_number(tokens, index) {
            if pending.is_some() {
                return None;
            }
            elements.push(OidElement::NamedNumber(token.to_owned(), number));
            proof {
                let element = ElementView::NamedNumber(token@, number);
                assert(elements_view(elements@) =~= before.push(element));
                lemma_joined(before, element, oid_elements(words, scope@, index + 4, None));
            }
            index += 4;
        } else if is_module_reference(token) && pending.is_none() {
            pending = Some(token);
            index += 1;
        } else if is_value_name(token) {
            let symbol = scope.symbol_ref(token, pending);
            let ghost element = ElementView::Symbol(symbol@);
            elements.push(OidElement::Symbol(symbol));
            proof {
                assert(elements_view(elements@) =~= before.push(element));
                lemma_joined(before, element, oid_elements(words, scope@, index + 1, None));
            }
            pending = None;
            index += 1;
        } else {
            return None;
        }
    }
    if pending.is_none() {
        assert(elements_view(elements@) + Seq::<ElementView>::empty() =~= elements_view(elements@));
        Some(elements)
    } else {
        None
    }
}

proof fn lemma_texts_subrange(strings: Seq<String>, start: int, end: int)
    requires
        0 <= start <= end <= strings.len(),
    ensures
        texts(strings.subrange(start, end)) == texts(strings).subrange(start, end),
{
    assert(texts(strings.subrange(start, end)) =~= texts(strings).subrange(start, end));
}

/// The elements of a braced value: those between the brace behind the next assignment sign and its
/// closing brace, or the end of the tokens.
pub open spec fn assigned_elements(
    tokens: Seq<Seq<char>>,
    start: int,
    scope: ScopeView,
) -> Option<Seq<ElementView>> {
    let assign = position(tokens, "::="@, start);
    if start > tokens.len() || assign + 1 >= tokens.len() || tokens[assign + 1] != "{"@ {
        None
    } else {
        oid_elements(
            tokens.subrange(assign + 2, position(tokens, "}"@, assign + 2)),
            scope,
            0,
            None,
        )
    }
}

/// Parses the value of a braced definition.
pub fn assignment_elements(tokens: &[String], start: usize, scope: &ModuleScope<'_>) -> (r: Option<
    Vec<OidElement>,
>)
    ensures
        parsed_elements(r) == assigned_elements(texts(tokens@), start as int, scope@),
{
    if start > tokens.len() {
        return None;
    }
    let assign: usize = find_token(tokens, "::=", start);
    if tokens.len() - assign <= 1 || !same_text(tokens[assign + 1].as_str(), "{") {
        return None;
    }
    let end: usize = find_token(tokens, "}", assign + 2);
    proof {
        lemma_texts_subrange(tokens@, assign + 2, end as int);
    }
    parse_oid_elements(slice_subrange(tokens, assign + 2, end), scope)
}

/// The elements of the object identifier that an `ENTERPRISE` clause names.
pub open spec fn enterprise_elements(clauses: Seq<Seq<char>>, scope: ScopeView) -> Option<
    Seq<ElementView>,
> {
    let clause = position(clauses, "ENTERPRISE"@, 0);
    if clause + 1 >= clauses.len() {
        None
    } else if clauses[clause + 1] == "{"@ {
        let end = position(clauses, "}"@, clause + 2);
        if end >= clauses.len() {
            None
        } else {
            oid_elements(clauses.subrange(clause + 2, end), scope, 0, None)
        }
    } else if value_name(clauses[clause + 1]) {
        Some(seq![ElementView::Symbol(qualified_reference(scope, clauses[clause + 1], None))])
    } else {
        None
    }
}

/// The RFC 3584 section 3 notification identifier of an SMIv1 `TRAP-TYPE`: the enterprise, zero
/// and the number behind the assignment sign.
pub open spec fn trap_elements(tokens: Seq<Seq<char>>, start: int, scope: ScopeView) -> Option<
    Seq<ElementView>,
> {
    let assign = position(tokens, "::="@, start);
    if start > tokens.len() || assign + 1 >= tokens.len() {
        None
    } else {
        match (
            read_unsigned(tokens[assign + 1], u32::MAX as nat),
            enterprise_elements(tokens.subrange(start, assign), scope),
        ) {
            (Some(specific_trap), Some(enterprise)) => Some(
                enterprise + seq![ElementView::Number(0), ElementView::Number(specific_trap as u32)],
            ),
            _ => None,
        }
    }
}

fn parse_enterprise(clauses: &[String], scope: &ModuleScope<'_>) -> (r: Option<Vec<OidElement>>)
    ensures
        parsed_elements(r) == enterprise_elements(texts(clauses@), scope@),
{
    let clause: usize = find_token(clauses, "ENTERPRISE", 0);
    if clauses.len() - clause <= 1 {
        return None;
    }
    let enterprise = clauses[clause + 1].as_str();
    assert(texts(clauses@)[clause + 1] == enterprise@);
    if same_text(enterprise, "{") {
        let end: usize = find_token(clauses, "}", clause + 2);
        if end >= clauses.len() {
            return None;
        }
        proof {
            lemma_texts_subrange(clauses@, clause + 2, end as int);
        }
        parse_oid_elements(slice_subrange(clauses, clause + 2, end), scope)
    } else if is_value_name(enterprise) {
        let symbol = scope.symbol_ref(enterprise, None);
        let ghost element = ElementView::Symbol(symbol@);
        let mut elements: Vec<OidElement> = Vec::new();
        elements.push(OidElement::Symbol(symbol));
        assert(elements_view(elements@) =~= seq![element]);
        Some(elements)
    } else {
        None
    }
}

/// Builds the RFC 3584 section 3 notification identifier of an SMIv1 `TRAP-TYPE`:
/// `<enterprise>.0.<specific-trap>`.
pub fn trap_type_elements(tokens: &[String], start: usize, scope: &ModuleScope<'_>) -> (r: Option<
    Vec<OidElement>,
>)
    ensures
        parsed_elements(r) == trap_elements(texts(tokens@), start as int, scope@),
{
    if start > tokens.len() {
        return None;
    }
    let assign: usize = find_token(tokens, "::=", start);
    if tokens.len() - assign <= 1 {
        return None;
    }
    let specific_trap: u32 = match parse_u32(tokens[assign + 1].as_str()) {
        Some(specific_trap) => specific_trap,
        None => {
            return None;
        },
    };
    proof {
        lemma_texts_subrange(tokens@, start as int, assign as int);
    }
    match parse_enterprise(slice_subrange(tokens, start, assign), scope) {
        Some(enterprise) => {
            let mut elements = enterprise;
            let ghost before = elements_view(elements@);
            elements.push(OidElement::Number(0));
            elements.push(OidElement::Number(specific_trap));
            assert(elements_view(elements@) =~= before + seq![
                ElementView::Number(0),
                ElementView::Number(specific_trap),
            ]);
            Some(elements)
        },
        None => None,
    }
}

/// The imports with every name of `names` imported from `module`.
pub open spec fn imported(
    imports: Map<Seq<char>, Seq<char>>,
    names: Seq<Seq<char>>,
    module: Seq<char>,
) -> Map<Seq<char>, Seq<char>> {
    imports.union_prefer_right(Map::new(|name: Seq<char>| names.contains(name), |name| module))
}

/// The imports that the tokens from `index` on add, with `names` waiting for the module that they
/// come from.
pub open spec fn imports_from(
    tokens: Seq<Seq<char>>,
    index: int,
    names: Seq<Seq<char>>,
    imports: Map<Seq<char>, Seq<char>>,
) -> Map<Seq<char>, Seq<char>>
    decreases tokens.len() - index,
{
    if index >= tokens.len() || tokens[index] == ";"@ {
        imports
    } else if tokens[index] == "FROM"@ {
        if index + 1 >= tokens.len() {
            imports
        } else {
            imports_from(
                tokens,
                index + 2,
                Seq::empty(),
                imported(imports, names, tokens[index + 1]),
            )
        }
    } else if tokens[index] == ","@ {
        imports_from(tokens, index + 1, names, imports)
    } else {
        imports_from(tokens, index + 1, names.push(tokens[index]), imports)
    }
}

/// The module that each symbol of an `IMPORTS` clause is imported from.
pub open spec fn imports_of(tokens: Seq<Seq<char>>) -> Map<Seq<char>, Seq<char>> {
    let start = position(tokens, "IMPORTS"@, 0);
    imports_from(tokens, start + 1, Seq::empty(), Map::empty())
}

/// The contents of a map of strings.
pub open spec fn import_texts(imports: Map<Seq<char>, String>) -> Map<Seq<char>, Seq<char>> {
    imports.map_values(|module: String| module@)
}

fn import_all(imports: &mut StringHashMap<String>, names: &[String], module: &String)
    ensures
        import_texts(final(imports)@) == imported(
            import_texts(old(imports)@),
            texts(names@),
            module@,
        ),
{
    for index in 0..names.len()
        invariant
            import_texts(imports@) == imported(
                import_texts(old(imports)@),
                texts(names@).take(index as int),
                module@,
            ),
    {
        let ghost before = import_texts(imports@);
        let ghost seen = texts(names@).take(index as int);
        let ghost more = texts(names@).take(index + 1);
        let name = names[index].clone();
        imports.insert(name, module.clone());
        proof {
            assert(import_texts(imports@) =~= before.insert(name@, module@));
            assert(more =~= seen.push(name@));
            assert forall|other: Seq<char>| more.contains(other) <==> (seen.contains(other) || other
                == name@) by {
                if seen.contains(other) {
                    let place = choose|place: int|
                        0 <= place < seen.len() && seen[place] == other;
                    assert(more[place] == other);
                }
                if other == name@ {
                    assert(more[index as int] == other);
                }
            }
            assert(import_texts(imports@) =~= imported(
                import_texts(old(imports)@),
                more,
                module@,
            ));
        }
    }
    assert(texts(names@).take(names@.len() as int) =~= texts(names@));
}

/// Maps each imported symbol to the module it is imported from.
pub fn module_imports(tokens: &[String]) -> (r: StringHashMap<String>)
    ensures
        import_texts(r@) == imports_of(texts(tokens@)),
{
    let mut imports: StringHashMap<String> = StringHashMap::new();
    let ghost words = texts(tokens@);
    assert(import_texts(imports@) =~= Map::empty());
    let start: usize = find_token(tokens, "IMPORTS", 0);
    if start >= tokens.len() {
        return imports;
    }
    let mut names: Vec<String> = Vec::new();
    let mut index: usize = start + 1;
    assert(texts(names@) =~= Seq::empty());
    while index < tokens.len()
        invariant_except_break
            imports_from(words, index as int, texts(names@), import_texts(imports@))
                == imports_of(words),
        invariant
            words == texts(tokens@),
            index <= tokens@.len(),
        ensures
            import_texts(imports@) == imports_of(words),
        decreases tokens@.len() - index,
    {
        let token = tokens[index].as_str();
        assert(words[index as int] == token@);
        if same_text(token, ";") {
            break ;
        }
        if same_text(token, "FROM") {
            if tokens.len() - index <= 1 {
                break ;
            }
            import_all(&mut imports, names.as_slice(), &tokens[index + 1]);
            names = Vec::new();
            assert(texts(names@) =~= Seq::empty());
            index += 2;
        } else {
            if !same_text(token, ",") {
                let ghost before = texts(names@);
                names.push(token.to_owned());
                assert(texts(names@) =~= before.push(token@));
            }
            index += 1;
        }
    }
    imports
}

/// Whether the token at `index` is the name of a definition.
pub open spec fn defines_at(tokens: Seq<Seq<char>>, index: int) -> bool {
    value_name(tokens[index]) && definition_kind(tokens, index + 1) is Some
}

/// The names that the first `count` tokens define.
pub open spec fn names_defined(tokens: Seq<Seq<char>>, count: int) -> Set<Seq<char>> {
    Set::new(
        |name: Seq<char>|
            exists|index: int|
                0 <= index < count && #[trigger] tokens[index] == name && defines_at(tokens, index),
    )
}

/// What the references inside a module are qualified by.
pub open spec fn module_scope(module: Option<Seq<char>>, tokens: Seq<Seq<char>>) -> ScopeView {
    ScopeView {
        module,
        imports: imports_of(tokens),
        local_names: names_defined(tokens, tokens.len() as int),
    }
}

/// The definition whose name is the token at `index`, if that is one with a value to be read.
pub open spec fn definition_at(tokens: Seq<Seq<char>>, scope: ScopeView, index: int) -> Option<
    DefinitionView,
> {
    if !defines_at(tokens, index) {
        None
    } else {
        let (elements, prefix_resolves) = match definition_kind(tokens, index + 1)->0 {
            OidDefinition::Braced { width, prefix_resolves } => (
                assigned_elements(tokens, index + 1 + width, scope),
                prefix_resolves,
            ),
            OidDefinition::TrapType => (trap_elements(tokens, index + 2, scope), false),
        };
        match elements {
            Some(elements) => Some(
                DefinitionView {
                    module: scope.module,
                    name: tokens[index],
                    prefix_resolves,
                    elements,
                },
            ),
            None => None,
        }
    }
}

/// The definitions whose names are among the first `count` tokens, in order.
pub open spec fn definitions_among(tokens: Seq<Seq<char>>, scope: ScopeView, count: int) -> Seq<
    DefinitionView,
>
    decreases count,
{
    if count <= 0 {
        Seq::empty()
    } else {
        let before = definitions_among(tokens, scope, count - 1);
        match definition_at(tokens, scope, count - 1) {
            Some(definition) => before.push(definition),
            None => before,
        }
    }
}

/// The definitions of one module.
pub open spec fn module_definitions(module: Option<Seq<char>>, tokens: Seq<Seq<char>>) -> Seq<
    DefinitionView,
> {
    definitions_among(tokens, module_scope(module, tokens), tokens.len() as int)
}

fn local_names(tokens: &[String]) -> (r: StringHashSet)
    ensures
        r@ == names_defined(texts(tokens@), tokens@.len() as int),
{
    let mut names = StringHashSet::new();
    let ghost words = texts(tokens@);
    assert(names@ =~= names_defined(words, 0));
    for index in 0..tokens.len()
        invariant
            words == texts(tokens@),
            names@ == names_defined(words, index as int),
    {
        assert(words[index as int] == tokens@[index as int]@);
        let ghost before = names@;
        if is_value_name(tokens[index].as_str()) && oid_definition(tokens, index + 1).is_some() {
            let name = tokens[index].clone();
            names.insert(name);
            assert(names@ =~= names_defined(words, index + 1)) by {
                assert(defines_at(words, index as int));
                assert forall|other: Seq<char>|
                    names_defined(words, index + 1).contains(other) implies before.contains(other)
                    || other == name@ by {
                    let place = choose|place: int|
                        0 <= place < index + 1 && #[trigger] words[place] == other && defines_at(
                            words,
                            place,
                        );
                    if place < index {
                        assert(names_defined(words, index as int).contains(other));
                    }
                }
            }
        } else {
            assert(names@ =~= names_defined(words, index + 1));
        }
    }
    names
}

fn parse_definition(tokens: &[String], index: usize, scope: &ModuleScope<'_>) -> (r: Option<
    RawDefinition,
>)
    requires
        index < tokens@.len(),
    ensures
        match r {
            Some(definition) => definition_at(texts(tokens@), scope@, index as int) == Some(
                definition@,
            ),
            None => definition_at(texts(tokens@), scope@, index as int) is None,
        },
{
    let name = tokens[index].as_str();
    assert(texts(tokens@)[index as int] == name@);
    if !is_value_name(name) {
        return None;
    }
    let definition: OidDefinition = match oid_definition(tokens, index + 1) {
        Some(definition) => definition,
        None => {
            return None;
        },
    };
    let prefix_resolves: bool = match definition {
        OidDefinition::Braced { width: _, prefix_resolves } => prefix_resolves,
        OidDefinition::TrapType => false,
    };
    let elements: Option<Vec<OidElement>> = match definition {
        OidDefinition::Braced { width, prefix_resolves: _ } => assignment_elements(
            tokens,
            index + 1 + width,
            scope,
        ),
        OidDefinition::TrapType => trap_type_elements(tokens, index + 2, scope),
    };
    match elements {
        Some(elements) => {
            let module: Option<String> = match scope.module {
                Some(module) => Some(module.to_owned()),
                None => None,
            };
            Some(RawDefinition { module, name: name.to_owned(), prefix_resolves, elements })
        },
        None => None,
    }
}

/// Parses the definitions of one module.
pub fn parse_module_definitions(module: Option<String>, tokens: &[String]) -> (r: Vec<
    RawDefinition,
>)
    ensures
        definitions_view(r@) == module_definitions(opt_text(module), texts(tokens@)),
{
    let imports = module_imports(tokens);
    let names = local_names(tokens);
    let scope = ModuleScope {
        module: match &module {
            Some(module) => Some(module.as_str()),
            None => None,
        },
        imports: &imports,
        local_names: &names,
    };
    let ghost words = texts(tokens@);
    assert(scope@ == module_scope(opt_text(module), words));
    let mut definitions: Vec<RawDefinition> = Vec::new();
    assert(definitions_view(definitions@) =~= Seq::empty());
    for index in 0..tokens.len()
        invariant
            words == texts(tokens@),
            definitions_view(definitions@) == definitions_among(words, scope@, index as int),
    {
        let ghost before = definitions_view(definitions@);
        if let Some(definition) = parse_definition(tokens, index, &scope) {
            definitions.push(definition);
            assert(definitions_view(definitions@) =~= before.push(definition@));
        }
    }
    definitions
}

/// Whether a module starts at `index`: a module reference before `DEFINITIONS`.
pub open spec fn module_starts_at(tokens: Seq<Seq<char>>, index: int) -> bool {
    index + 1 < tokens.len() && tokens[index + 1] == "DEFINITIONS"@ && module_reference(
        tokens[index],
    )
}

/// The first module start from `index` on, or the number of tokens.
pub open spec fn module_start(tokens: Seq<Seq<char>>, index: int) -> int
    decreases tokens.len() - index,
{
    if index >= tokens.len() {
        tokens.len() as int
    } else if module_starts_at(tokens, index) {
        index
    } else {
        module_start(tokens, index + 1)
    }
}

pub proof fn lemma_module_start(tokens: Seq<Seq<char>>, index: int)
    requires
        index <= tokens.len(),
    ensures
        index <= module_start(tokens, index) <= tokens.len(),
    decreases tokens.len() - index,
{
    if index < tokens.len() && !module_starts_at(tokens, index) {
        lemma_module_start(tokens, index + 1);
    }
}

/// The definitions of the modules from the one that starts at `start` on. Each module reaches up to
/// the next.
pub open spec fn definitions_from(tokens: Seq<Seq<char>>, start: int) -> Seq<DefinitionView>
    decreases tokens.len() - start,
{
    if start >= tokens.len() {
        Seq::empty()
    } else {
        let end = module_start(tokens, start + 1);
        proof {
            lemma_module_start(tokens, start + 1);
        }
        module_definitions(Some(tokens[start]), tokens.subrange(start, end)) + definitions_from(
            tokens,
            end,
        )
    }
}

/// The definitions of a MIB file: those of its modules, or of the whole file where no module
/// starts.
pub open spec fn file_definitions(contents: Seq<char>) -> Seq<DefinitionView> {
    let words = tokens(stripped(contents, 0), 0);
    let first = module_start(words, 0);
    if first >= words.len() {
        module_definitions(None, words)
    } else {
        definitions_from(words, first)
    }
}

fn find_module_start(tokens: &[String], start: usize) -> (r: usize)
    requires
        start <= tokens@.len(),
    ensures
        r == module_start(texts(tokens@), start as int),
        start <= r <= tokens@.len(),
{
    let mut index: usize = start;
    while index < tokens.len()
        invariant_except_break
            module_start(texts(tokens@), index as int) == module_start(
                texts(tokens@),
                start as int,
            ),
        invariant
            start <= index <= tokens@.len(),
        ensures
            index == module_start(texts(tokens@), start as int),
        decreases tokens@.len() - index,
    {
        assert(texts(tokens@)[index as int] == tokens@[index as int]@);
        if tokens.len() - index > 1 && same_text(tokens[index + 1].as_str(), "DEFINITIONS")
            && is_module_reference(tokens[index].as_str()) {
            break ;
        }
        index += 1;
    }
    index
}

/// Parses the definitions of a MIB file. A file can contain several modules; each one starts with
/// `<ModuleName> DEFINITIONS`.
pub fn parse_definitions(contents: &str) -> (r: Vec<RawDefinition>)
    ensures
        definitions_view(r@) == file_definitions(contents@),
{
    let stripped_contents = strip_comments_and_strings(contents);
    let words = tokenize(stripped_contents.as_str());
    let ghost all = texts(words@);
    let first: usize = find_module_start(words.as_slice(), 0);
    if first >= words.len() {
        return parse_module_definitions(None, words.as_slice());
    }
    let mut definitions: Vec<RawDefinition> = Vec::new();
    let mut start: usize = first;
    assert(definitions_view(definitions@) =~= Seq::empty());
    assert(definitions_view(definitions@) + definitions_from(all, start as int)
        =~= definitions_from(all, first as int));
    while start < words.len()
        invariant
            all == texts(words@),
            start <= words@.len(),
            definitions_view(definitions@) + definitions_from(all, start as int)
                == definitions_from(all, first as int),
        decreases words@.len() - start,
    {
        let ghost before = definitions_view(definitions@);
        let end: usize = find_module_start(words.as_slice(), start + 1);
        proof {
            lemma_texts_subrange(words@, start as int, end as int);
            assert(all[start as int] == words@[start as int]@);
        }
        let mut module = parse_module_definitions(
            Some(words[start].clone()),
            slice_subrange(words.as_slice(), start, end),
        );
        let ghost added = definitions_view(module@);
        definitions.append(&mut module);
        assert(definitions_view(definitions@) =~= before + added);
        assert(before + added + definitions_from(all, end as int) =~= before + (added
            + definitions_from(all, end as int)));
        start = end;
    }
    assert(definitions_view(definitions@) =~= definitions_view(definitions@) + definitions_from(
        all,
        start as int,
    ));
    definitions
}

} // verus!
