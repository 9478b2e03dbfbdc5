//! What the words of a module define.

use crate::mib::lexer::{stripped, tokens};
use crate::mib::parser::{
    assigned_elements, defines_at, definition_at, definitions_among, definitions_from,
    enterprise_elements, file_definitions, imported, imports_from, imports_of, lemma_module_start,
    module_definitions, module_scope, module_start, module_starts_at, oid_elements,
    parenthesized_number, position, qualified_reference, trap_elements, DefinitionView, ElementView,
    ScopeView, SymbolRefView,
};
use crate::text::{is_decimal_digit, read_unsigned};
use vstd::prelude::*;
use vstd::string::*;

verus! {

/// The word is a number that an arc can have.
pub open spec fn is_arc(word: Seq<char>, number: u32) -> bool {
    read_unsigned(word, u32::MAX as nat) == Some(number as nat)
}

/// The word is no number.
pub open spec fn is_no_number(word: Seq<char>) -> bool {
    read_unsigned(word, u32::MAX as nat) is None
}

/// A number in parentheses comes next.
pub open spec fn starts_with_parenthesized(words: Seq<Seq<char>>) -> bool {
    words.len() >= 3 && words[0] == "("@ && words[2] == ")"@ && !is_no_number(words[1])
}

/// The first character of the word is a lower-case letter.
pub open spec fn starts_lower(word: Seq<char>) -> bool {
    word.len() > 0 && 'a' <= word[0] <= 'z'
}

/// The first character of the word is an upper-case letter.
pub open spec fn starts_upper(word: Seq<char>) -> bool {
    word.len() > 0 && 'A' <= word[0] <= 'Z'
}

/// The element, and the elements behind it if they can be read.
pub open spec fn before_elements(
    first: ElementView,
    rest: Option<Seq<ElementView>>,
) -> Option<Seq<ElementView>> {
    if rest is Some {
        Some(seq![first] + rest->0)
    } else {
        None
    }
}

proof fn lemma_elements_move(
    words: Seq<Seq<char>>,
    scope: ScopeView,
    start: int,
    index: int,
    pending: Option<Seq<char>>,
)
    requires
        0 <= start <= words.len(),
        0 <= index,
    ensures
        oid_elements(words, scope, start + index, pending) == oid_elements(
            words.skip(start),
            scope,
            index,
            pending,
        ),
    decreases words.len() - index,
{
    let rest = words.skip(start);
    if start + index < words.len() {
        let word = words[start + index];
        lemma_elements_move(words, scope, start, index + 1, pending);
        lemma_elements_move(words, scope, start, index + 1, None);
        lemma_elements_move(words, scope, start, index + 1, Some(word));
        if index + 3 < rest.len() {
            lemma_elements_move(words, scope, start, index + 4, None);
        }
        assert(parenthesized_number(words, start + index) == parenthesized_number(rest, index));
    }
}

proof fn lemma_word_is_no_number(word: Seq<char>)
    requires
        starts_lower(word) || starts_upper(word),
    ensures
        is_no_number(word),
        word != ","@,
        word != ";"@,
{
    reveal_strlit(",");
    reveal_strlit(";");
    assert(!is_decimal_digit(word[0]));
}

/// The elements of a value are read one by one: numbers, names with a number in parentheses, and
/// symbols, which a module can stand before. Commas and semicolons do not count.
pub proof fn elements_are_read_in_order(
    word: Seq<char>,
    module: Seq<char>,
    number: u32,
    digits: Seq<char>,
    rest: Seq<Seq<char>>,
    scope: ScopeView,
)
    ensures
        oid_elements(Seq::empty(), scope, 0, None) == Some(Seq::<ElementView>::empty()),
        is_arc(digits, number) ==> oid_elements(seq![digits] + rest, scope, 0, None)
            == before_elements(ElementView::Number(number), oid_elements(rest, scope, 0, None)),
        (starts_lower(word) || starts_upper(word)) && is_arc(digits, number) ==> oid_elements(
            seq![word, "("@, digits, ")"@] + rest,
            scope,
            0,
            None,
        ) == before_elements(
            ElementView::NamedNumber(word, number),
            oid_elements(rest, scope, 0, None),
        ),
        starts_lower(word) && !starts_with_parenthesized(rest) ==> oid_elements(
            seq![word] + rest,
            scope,
            0,
            None,
        ) == before_elements(
            ElementView::Symbol(qualified_reference(scope, word, None)),
            oid_elements(rest, scope, 0, None),
        ),
        starts_lower(word) && starts_upper(module) && !starts_with_parenthesized(rest)
            ==> oid_elements(seq![module, word] + rest, scope, 0, None) == before_elements(
            ElementView::Symbol(SymbolRefView { module: Some(module), name: word }),
            oid_elements(rest, scope, 0, None),
        ),
        oid_elements(seq![","@] + rest, scope, 0, None) == oid_elements(rest, scope, 0, None),
        oid_elements(seq![";"@] + rest, scope, 0, None) == oid_elements(rest, scope, 0, None),
{
    reveal_strlit("(");
    reveal_strlit(")");
    reveal_strlit(",");
    reveal_strlit(";");
    let one = seq![digits] + rest;
    lemma_elements_move(one, scope, 1, 0, None);
    assert(one.skip(1) =~= rest);
    if is_arc(digits, number) {
        if digits == ","@ || digits == ";"@ {
            assert(digits.len() == 1 && !is_decimal_digit(digits[0]));
        }
    }
    let comma = seq![","@] + rest;
    lemma_elements_move(comma, scope, 1, 0, None);
    assert(comma.skip(1) =~= rest);
    let semicolon = seq![";"@] + rest;
    lemma_elements_move(semicolon, scope, 1, 0, None);
    assert(semicolon.skip(1) =~= rest);
    if starts_lower(word) || starts_upper(word) {
        lemma_word_is_no_number(word);
        let named = seq![word, "("@, digits, ")"@] + rest;
        lemma_elements_move(named, scope, 4, 0, None);
        assert(named.skip(4) =~= rest);
        assert(named[0] == word && named[1] == "("@ && named[2] == digits && named[3] == ")"@);
    }
    if starts_lower(word) && !starts_with_parenthesized(rest) {
        let symbol = seq![word] + rest;
        lemma_elements_move(symbol, scope, 1, 0, None);
        assert(symbol.skip(1) =~= rest);
        lemma_no_parentheses(symbol, 0, rest);
        if starts_upper(module) {
            lemma_word_is_no_number(module);
            let qualified = seq![module, word] + rest;
            assert(qualified[0] == module && qualified[1] == word);
            lemma_elements_move(qualified, scope, 2, 0, None);
            assert(qualified.skip(2) =~= rest);
            lemma_no_parentheses(qualified, 1, rest);
            assert(word != "("@) by {
                assert("("@[0] == '(');
            }
            assert(parenthesized_number(qualified, 0) is None);
            assert(oid_elements(qualified, scope, 1, Some(module)) == before_elements(
                ElementView::Symbol(SymbolRefView { module: Some(module), name: word }),
                oid_elements(qualified, scope, 2, None),
            ));
        }
    }
}

proof fn lemma_no_parentheses(words: Seq<Seq<char>>, index: int, rest: Seq<Seq<char>>)
    requires
        0 <= index < words.len(),
        words.skip(index + 1) == rest,
        !starts_with_parenthesized(rest),
    ensures
        parenthesized_number(words, index) is None,
{
    if index + 3 < words.len() {
        assert(rest[0] == words[index + 1]);
        assert(rest[1] == words[index + 2]);
        assert(rest[2] == words[index + 3]);
    }
}

/// A symbol is that of the module written before it. Without one it is that of the module itself,
/// if that defines the name, or else that of the module that the name is imported from.
pub proof fn symbols_are_qualified(scope: ScopeView, name: Seq<char>, module: Seq<char>)
    ensures
        qualified_reference(scope, name, Some(module)) == (SymbolRefView {
            module: Some(module),
            name,
        }),
        scope.module == Some(module) && scope.local_names.contains(name) ==> qualified_reference(
            scope,
            name,
            None,
        ) == (SymbolRefView { module: Some(module), name }),
        !scope.local_names.contains(name) && scope.imports.contains_pair(name, module)
            ==> qualified_reference(scope, name, None) == (SymbolRefView {
            module: Some(module),
            name,
        }),
        !scope.local_names.contains(name) && !scope.imports.contains_key(name)
            ==> qualified_reference(scope, name, None) == (SymbolRefView { module: None, name }),
{
}

proof fn lemma_position_is_first(words: Seq<Seq<char>>, word: Seq<char>, start: int, end: int)
    requires
        0 <= start <= end <= words.len(),
        forall|i: int| start <= i < end ==> #[trigger] words[i] != word,
        end < words.len() ==> words[end] == word,
    ensures
        position(words, word, start) == end,
    decreases end - start,
{
    if start < end {
        assert(words[start] != word);
        lemma_position_is_first(words, word, start + 1, end);
    }
}

/// The value of a definition stands in braces behind the next assignment, whatever stands before it
/// and behind it.
pub proof fn values_stand_in_braces(
    front: Seq<Seq<char>>,
    clauses: Seq<Seq<char>>,
    value: Seq<Seq<char>>,
    rest: Seq<Seq<char>>,
    scope: ScopeView,
)
    requires
        !clauses.contains("::="@),
        !value.contains("}"@),
    ensures
        assigned_elements(
            front + clauses + seq!["::="@, "{"@] + value + (seq!["}"@] + rest),
            front.len() as int,
            scope,
        ) == oid_elements(value, scope, 0, None),
{
    let words = front + clauses + seq!["::="@, "{"@] + value + (seq!["}"@] + rest);
    let start = front.len() as int;
    let assign = start + clauses.len();
    let end = assign + 2 + value.len();
    assert forall|i: int| start <= i < assign implies #[trigger] words[i] != "::="@ by {
        assert(words[i] == clauses[i - start]);
        assert(clauses.contains(clauses[i - start]));
    }
    assert(words[assign] == "::="@);
    assert(words[assign + 1] == "{"@);
    lemma_position_is_first(words, "::="@, start, assign);
    assert forall|i: int| assign + 2 <= i < end implies #[trigger] words[i] != "}"@ by {
        assert(words[i] == value[i - assign - 2]);
        assert(value.contains(value[i - assign - 2]));
    }
    assert(words[end] == "}"@);
    lemma_position_is_first(words, "}"@, assign + 2, end);
    assert(words.subrange(assign + 2, end) =~= value);
}

/// A trap of the enterprise and the number is the enterprise, zero and the number. The enterprise is
/// the symbol behind its word, or the value in braces there.
pub proof fn traps_follow_their_enterprise(
    front: Seq<Seq<char>>,
    before: Seq<Seq<char>>,
    enterprise: Seq<char>,
    value: Seq<Seq<char>>,
    behind: Seq<Seq<char>>,
    digits: Seq<char>,
    number: u32,
    rest: Seq<Seq<char>>,
    scope: ScopeView,
)
    requires
        !before.contains("ENTERPRISE"@),
        !before.contains("::="@),
        !behind.contains("::="@),
        is_arc(digits, number),
    ensures
        starts_lower(enterprise) ==> trap_elements(
            front + (before + seq!["ENTERPRISE"@, enterprise] + behind) + seq!["::="@, digits]
                + rest,
            front.len() as int,
            scope,
        ) == Some(
            seq![
                ElementView::Symbol(qualified_reference(scope, enterprise, None)),
                ElementView::Number(0),
                ElementView::Number(number),
            ],
        ),
        !value.contains("}"@) && !value.contains("::="@) ==> trap_elements(
            front + (before + seq!["ENTERPRISE"@, "{"@] + value + (seq!["}"@] + behind)) + seq![
                "::="@,
                digits,
            ] + rest,
            front.len() as int,
            scope,
        ) == match oid_elements(value, scope, 0, None) {
            Some(elements) => Some(
                elements + seq![ElementView::Number(0), ElementView::Number(number)],
            ),
            None => None,
        },
{
    reveal_strlit("::=");
    reveal_strlit("ENTERPRISE");
    reveal_strlit("{");
    reveal_strlit("}");
    assert("ENTERPRISE"@ != "::="@ && "{"@ != "::="@ && "}"@ != "::="@) by {
        assert("ENTERPRISE"@.len() != "::="@.len());
        assert("{"@.len() != "::="@.len());
        assert("}"@.len() != "::="@.len());
    }
    let clause = before.len() as int;
    if starts_lower(enterprise) {
        let clauses = before + seq!["ENTERPRISE"@, enterprise] + behind;
        assert(enterprise != "::="@ && enterprise != "{"@) by {
            assert("::="@[0] == ':');
            assert("{"@[0] == '{');
        }
        assert forall|i: int| 0 <= i < clauses.len() implies #[trigger] clauses[i] != "::="@ by {
            if i < clause {
                assert(clauses[i] == before[i]);
                assert(before.contains(before[i]));
            } else if i >= clause + 2 {
                assert(clauses[i] == behind[i - clause - 2]);
                assert(behind.contains(behind[i - clause - 2]));
            }
        }
        assert forall|i: int| 0 <= i < clause implies #[trigger] clauses[i] != "ENTERPRISE"@ by {
            assert(clauses[i] == before[i]);
            assert(before.contains(before[i]));
        }
        assert(clauses[clause] == "ENTERPRISE"@);
        assert(clauses[clause + 1] == enterprise);
        lemma_position_is_first(clauses, "ENTERPRISE"@, 0, clause);
        lemma_trap(front, clauses, digits, number, rest, scope);
        assert(seq![ElementView::Symbol(qualified_reference(scope, enterprise, None))] + seq![
            ElementView::Number(0),
            ElementView::Number(number),
        ] =~= seq![
            ElementView::Symbol(qualified_reference(scope, enterprise, None)),
            ElementView::Number(0),
            ElementView::Number(number),
        ]);
    }
    if !value.contains("}"@) && !value.contains("::="@) {
        let clauses = before + seq!["ENTERPRISE"@, "{"@] + value + (seq!["}"@] + behind);
        let end = clause + 2 + value.len();
        assert forall|i: int| 0 <= i < clauses.len() implies #[trigger] clauses[i] != "::="@ by {
            if i < clause {
                assert(clauses[i] == before[i]);
                assert(before.contains(before[i]));
            } else if clause + 2 <= i < end {
                assert(clauses[i] == value[i - clause - 2]);
                assert(value.contains(value[i - clause - 2]));
            } else if i > end {
                assert(clauses[i] == behind[i - end - 1]);
                assert(behind.contains(behind[i - end - 1]));
            }
        }
        assert forall|i: int| 0 <= i < clause implies #[trigger] clauses[i] != "ENTERPRISE"@ by {
            assert(clauses[i] == before[i]);
            assert(before.contains(before[i]));
        }
        assert(clauses[clause] == "ENTERPRISE"@);
        assert(clauses[clause + 1] == "{"@);
        lemma_position_is_first(clauses, "ENTERPRISE"@, 0, clause);
        assert forall|i: int| clause + 2 <= i < end implies #[trigger] clauses[i] != "}"@ by {
            assert(clauses[i] == value[i - clause - 2]);
            assert(value.contains(value[i - clause - 2]));
        }
        assert(clauses[end] == "}"@);
        lemma_position_is_first(clauses, "}"@, clause + 2, end);
        assert(clauses.subrange(clause + 2, end) =~= value);
        lemma_trap(front, clauses, digits, number, rest, scope);
    }
}

proof fn lemma_trap(
    front: Seq<Seq<char>>,
    clauses: Seq<Seq<char>>,
    digits: Seq<char>,
    number: u32,
    rest: Seq<Seq<char>>,
    scope: ScopeView,
)
    requires
        forall|i: int| 0 <= i < clauses.len() ==> #[trigger] clauses[i] != "::="@,
        is_arc(digits, number),
    ensures
        trap_elements(
            front + clauses + seq!["::="@, digits] + rest,
            front.len() as int,
            scope,
        ) == match enterprise_elements(clauses, scope) {
            Some(elements) => Some(
                elements + seq![ElementView::Number(0), ElementView::Number(number)],
            ),
            None => None,
        },
{
    let words = front + clauses + seq!["::="@, digits] + rest;
    let start = front.len() as int;
    let assign = start + clauses.len();
    assert forall|i: int| start <= i < assign implies #[trigger] words[i] != "::="@ by {
        assert(words[i] == clauses[i - start]);
    }
    assert(words[assign] == "::="@);
    assert(words[assign + 1] == digits);
    lemma_position_is_first(words, "::="@, start, assign);
    assert(words.subrange(start, assign) =~= clauses);
}

/// The word at the index is there and is the given one.
pub open spec fn has_word(words: Seq<Seq<char>>, index: int, word: Seq<char>) -> bool {
    0 <= index < words.len() && words[index] == word
}

/// A value is given to the name at the index, in braces or as that of a trap, and its instances are
/// those of objects alone.
pub open spec fn defined_at(
    words: Seq<Seq<char>>,
    scope: ScopeView,
    index: int,
) -> Option<DefinitionView> {
    let object = has_word(words, index + 1, "OBJECT-TYPE"@);
    let other = has_word(words, index + 1, "MODULE-IDENTITY"@) || has_word(
        words,
        index + 1,
        "OBJECT-IDENTITY"@,
    ) || has_word(words, index + 1, "NOTIFICATION-TYPE"@);
    let trap = has_word(words, index + 1, "TRAP-TYPE"@);
    let identifier = has_word(words, index + 1, "OBJECT"@) && has_word(
        words,
        index + 2,
        "IDENTIFIER"@,
    );
    let elements = if object || other {
        assigned_elements(words, index + 2, scope)
    } else if trap {
        trap_elements(words, index + 2, scope)
    } else if identifier {
        assigned_elements(words, index + 3, scope)
    } else {
        None
    };
    if starts_lower(words[index]) && elements is Some {
        Some(
            DefinitionView {
                module: scope.module,
                name: words[index],
                prefix_resolves: object,
                elements: elements->0,
            },
        )
    } else {
        None
    }
}

/// The definition by itself, or nothing.
pub open spec fn definition_or_none(definition: Option<DefinitionView>) -> Seq<DefinitionView> {
    if definition is Some {
        seq![definition->0]
    } else {
        Seq::empty()
    }
}

proof fn lemma_keywords()
    ensures
        "TRAP-TYPE"@ != "OBJECT-TYPE"@,
        "TRAP-TYPE"@ != "MODULE-IDENTITY"@,
        "TRAP-TYPE"@ != "OBJECT-IDENTITY"@,
        "TRAP-TYPE"@ != "NOTIFICATION-TYPE"@,
        "OBJECT"@ != "OBJECT-TYPE"@,
        "OBJECT"@ != "MODULE-IDENTITY"@,
        "OBJECT"@ != "OBJECT-IDENTITY"@,
        "OBJECT"@ != "NOTIFICATION-TYPE"@,
        "OBJECT"@ != "TRAP-TYPE"@,
        "OBJECT-TYPE"@ != "MODULE-IDENTITY"@,
        "OBJECT-TYPE"@ != "OBJECT-IDENTITY"@,
        "OBJECT-TYPE"@ != "NOTIFICATION-TYPE"@,
{
    reveal_strlit("TRAP-TYPE");
    reveal_strlit("OBJECT-TYPE");
    reveal_strlit("MODULE-IDENTITY");
    reveal_strlit("OBJECT-IDENTITY");
    reveal_strlit("NOTIFICATION-TYPE");
    reveal_strlit("OBJECT");
    assert("TRAP-TYPE"@.len() == 9);
    assert("OBJECT-TYPE"@.len() == 11);
    assert("MODULE-IDENTITY"@.len() == 15);
    assert("OBJECT-IDENTITY"@.len() == 15);
    assert("NOTIFICATION-TYPE"@.len() == 17);
    assert("OBJECT"@.len() == 6);
}

proof fn lemma_definition_at(words: Seq<Seq<char>>, scope: ScopeView, index: int)
    requires
        0 <= index < words.len(),
    ensures
        definition_at(words, scope, index) == defined_at(words, scope, index),
        defines_at(words, index) == (starts_lower(words[index]) && opens_definition(words, index)),
{
    lemma_keywords();
}

proof fn lemma_definitions_among(words: Seq<Seq<char>>, scope: ScopeView, count: nat)
    requires
        count <= words.len(),
    ensures
        definitions_among(words, scope, count as int) == Seq::new(
            count,
            |index: int| definition_or_none(defined_at(words, scope, index)),
        ).flatten(),
    decreases count,
{
    let found = Seq::new(
        count,
        |index: int| definition_or_none(defined_at(words, scope, index)),
    );
    if count > 0 {
        let last = count - 1;
        let before = Seq::new(
            last as nat,
            |index: int| definition_or_none(defined_at(words, scope, index)),
        );
        lemma_definitions_among(words, scope, last as nat);
        lemma_definition_at(words, scope, last);
        let definition = definition_or_none(defined_at(words, scope, last));
        assert(found =~= before.push(definition));
        before.lemma_flatten_push(definition);
        assert(before.flatten() + Seq::<DefinitionView>::empty() =~= before.flatten());
        if defined_at(words, scope, last) is Some {
            assert(before.flatten() + definition =~= before.flatten().push(definition[0]));
        }
    }
}

/// A definition opens behind the word at the index.
pub open spec fn opens_definition(words: Seq<Seq<char>>, index: int) -> bool {
    ||| has_word(words, index + 1, "OBJECT-TYPE"@)
    ||| has_word(words, index + 1, "MODULE-IDENTITY"@)
    ||| has_word(words, index + 1, "OBJECT-IDENTITY"@)
    ||| has_word(words, index + 1, "NOTIFICATION-TYPE"@)
    ||| has_word(words, index + 1, "TRAP-TYPE"@)
    ||| has_word(words, index + 1, "OBJECT"@) && has_word(words, index + 2, "IDENTIFIER"@)
}

/// The definitions of a module are all those that its words make, in their order, and references in
/// them are local to the names that it defines.
pub proof fn modules_define_all_their_names(
    module: Option<Seq<char>>,
    words: Seq<Seq<char>>,
    scope: ScopeView,
    name: Seq<char>,
)
    requires
        scope == module_scope(module, words),
    ensures
        module_definitions(module, words) == Seq::new(
            words.len(),
            |index: int| definition_or_none(defined_at(words, scope, index)),
        ).flatten(),
        scope.module == module,
        scope.imports == imports_of(words),
        scope.local_names.contains(name) <==> exists|index: int|
            0 <= index < words.len() && #[trigger] words[index] == name && starts_lower(name)
                && opens_definition(words, index),
{
    lemma_definitions_among(words, scope, words.len());
    if scope.local_names.contains(name) {
        let index = choose|index: int|
            0 <= index < words.len() && #[trigger] words[index] == name && defines_at(
                words,
                index,
            );
        lemma_definition_at(words, scope, index);
        assert(words[index] == name && starts_lower(name) && opens_definition(words, index));
    }
    if exists|index: int|
        0 <= index < words.len() && #[trigger] words[index] == name && starts_lower(name)
            && opens_definition(words, index) {
        let index = choose|index: int|
            0 <= index < words.len() && #[trigger] words[index] == name && starts_lower(name)
                && opens_definition(words, index);
        lemma_definition_at(words, scope, index);
        assert(words[index] == name && defines_at(words, index));
    }
}

proof fn lemma_imports_move(
    words: Seq<Seq<char>>,
    start: int,
    index: int,
    names: Seq<Seq<char>>,
    imports: Map<Seq<char>, Seq<char>>,
)
    requires
        0 <= start <= words.len(),
        0 <= index,
    ensures
        imports_from(words, start + index, names, imports) == imports_from(
            words.skip(start),
            index,
            names,
            imports,
        ),
    decreases words.len() - index,
{
    let rest = words.skip(start);
    if start + index < words.len() {
        let word = words[start + index];
        if index + 1 < rest.len() {
            lemma_imports_move(
                words,
                start,
                index + 2,
                Seq::empty(),
                imported(imports, names, words[start + index + 1]),
            );
        }
        lemma_imports_move(words, start, index + 1, names, imports);
        lemma_imports_move(words, start, index + 1, names.push(word), imports);
    }
}

proof fn lemma_names_gather(
    words: Seq<Seq<char>>,
    index: int,
    end: int,
    names: Seq<Seq<char>>,
    imports: Map<Seq<char>, Seq<char>>,
)
    requires
        0 <= index <= end <= words.len(),
        forall|i: int|
            index <= i < end ==> #[trigger] words[i] != "FROM"@ && words[i] != ";"@,
    ensures
        exists|more: Seq<Seq<char>>|
            {
                &&& #[trigger] imports_from(words, end, more, imports) == imports_from(
                    words,
                    index,
                    names,
                    imports,
                )
                &&& forall|name: Seq<char>|
                    more.contains(name) <==> names.contains(name) || (name != ","@ && words.subrange(
                        index,
                        end,
                    ).contains(name))
            },
    decreases end - index,
{
    if index == end {
        assert(words.subrange(index, end) =~= Seq::empty());
        assert(imports_from(words, end, names, imports) == imports_from(
            words,
            index,
            names,
            imports,
        ));
    } else {
        let word = words[index];
        assert(word != "FROM"@ && word != ";"@);
        let next = if word == ","@ {
            names
        } else {
            names.push(word)
        };
        lemma_names_gather(words, index + 1, end, next, imports);
        let more = choose|more: Seq<Seq<char>>|
            {
                &&& #[trigger] imports_from(words, end, more, imports) == imports_from(
                    words,
                    index + 1,
                    next,
                    imports,
                )
                &&& forall|name: Seq<char>|
                    more.contains(name) <==> next.contains(name) || (name != ","@ && words.subrange(
                        index + 1,
                        end,
                    ).contains(name))
            };
        let here = words.subrange(index, end);
        let rest = words.subrange(index + 1, end);
        assert(here =~= seq![word] + rest);
        assert forall|name: Seq<char>|
            more.contains(name) <==> names.contains(name) || (name != ","@ && here.contains(
                name,
            )) by {
            lemma_contains_first(word, rest, name);
            lemma_contains_last(names, word, name);
        }
        assert(imports_from(words, end, more, imports) == imports_from(
            words,
            index,
            names,
            imports,
        ));
    }
}

proof fn lemma_contains_first(first: Seq<char>, rest: Seq<Seq<char>>, name: Seq<char>)
    ensures
        (seq![first] + rest).contains(name) <==> name == first || rest.contains(name),
{
    let all = seq![first] + rest;
    assert(all[0] == first);
    if rest.contains(name) {
        let place = choose|place: int| 0 <= place < rest.len() && rest[place] == name;
        assert(all[place + 1] == name);
    }
    if all.contains(name) && name != first {
        let place = choose|place: int| 0 <= place < all.len() && all[place] == name;
        assert(rest[place - 1] == name);
    }
}

proof fn lemma_contains_last(front: Seq<Seq<char>>, last: Seq<char>, name: Seq<char>)
    ensures
        front.push(last).contains(name) <==> name == last || front.contains(name),
{
    let all = front.push(last);
    assert(all[front.len() as int] == last);
    if front.contains(name) {
        let place = choose|place: int| 0 <= place < front.len() && front[place] == name;
        assert(all[place] == name);
    }
    if all.contains(name) && name != last {
        let place = choose|place: int| 0 <= place < all.len() && all[place] == name;
        assert(front[place] == name);
    }
}

/// Names before `FROM` are imported from the module behind it, and what follows adds to that. A
/// semicolon ends the imports.
pub proof fn imports_are_of_the_module_behind_them(
    front: Seq<Seq<char>>,
    names: Seq<Seq<char>>,
    module: Seq<char>,
    rest: Seq<Seq<char>>,
    imports: Map<Seq<char>, Seq<char>>,
)
    requires
        !names.contains("FROM"@),
        !names.contains(";"@),
    ensures
        imports_from(names + (seq!["FROM"@, module] + rest), 0, Seq::empty(), imports)
            == imports_from(
            rest,
            0,
            Seq::empty(),
            Map::new(
                |name: Seq<char>|
                    imports.contains_key(name) || (name != ","@ && names.contains(name)),
                |name: Seq<char>|
                    if name != ","@ && names.contains(name) {
                        module
                    } else {
                        imports[name]
                    },
            ),
        ),
        imports_from(names + (seq![";"@] + rest), 0, Seq::empty(), imports) == imports,
        imports_from(names, 0, Seq::empty(), imports) == imports,
        !front.contains("IMPORTS"@) ==> imports_of(front + (seq!["IMPORTS"@] + rest))
            == imports_from(rest, 0, Seq::empty(), Map::empty()),
        !front.contains("IMPORTS"@) ==> imports_of(front) == Map::<Seq<char>, Seq<char>>::empty(),
{
    reveal_strlit("FROM");
    reveal_strlit(";");
    reveal_strlit(",");
    let none = Seq::<Seq<char>>::empty();
    let end = names.len() as int;
    let words = names + (seq!["FROM"@, module] + rest);
    let ended = names + (seq![";"@] + rest);
    assert forall|i: int| 0 <= i < end implies #[trigger] words[i] != "FROM"@ && words[i]
        != ";"@ by {
        assert(words[i] == names[i]);
        assert(names.contains(names[i]));
    }
    assert forall|i: int| 0 <= i < end implies #[trigger] ended[i] != "FROM"@ && ended[i]
        != ";"@ by {
        assert(ended[i] == names[i]);
        assert(names.contains(names[i]));
    }
    assert forall|i: int| 0 <= i < end implies #[trigger] names[i] != "FROM"@ && names[i]
        != ";"@ by {
        assert(names.contains(names[i]));
    }
    lemma_names_gather(words, 0, end, none, imports);
    lemma_names_gather(ended, 0, end, none, imports);
    lemma_names_gather(names, 0, end, none, imports);
    assert(ended[end] == ";"@);
    assert(words.subrange(0, end) =~= names);
    assert(words[end] == "FROM"@ && words[end + 1] == module);
    assert("FROM"@ != ";"@) by {
        assert("FROM"@.len() != ";"@.len());
    }
    let more = choose|more: Seq<Seq<char>>|
        {
            &&& #[trigger] imports_from(words, end, more, imports) == imports_from(
                words,
                0,
                none,
                imports,
            )
            &&& forall|name: Seq<char>|
                more.contains(name) <==> none.contains(name) || (name != ","@ && words.subrange(
                    0,
                    end,
                ).contains(name))
        };
    let after = Map::new(
        |name: Seq<char>| imports.contains_key(name) || (name != ","@ && names.contains(name)),
        |name: Seq<char>|
            if name != ","@ && names.contains(name) {
                module
            } else {
                imports[name]
            },
    );
    assert(imported(imports, more, module) =~= after);
    lemma_imports_move(words, end + 2, 0, none, after);
    assert(words.skip(end + 2) =~= rest);
    if !front.contains("IMPORTS"@) {
        let all = front + (seq!["IMPORTS"@] + rest);
        let start = front.len() as int;
        assert forall|i: int| 0 <= i < start implies #[trigger] all[i] != "IMPORTS"@ by {
            assert(all[i] == front[i]);
            assert(front.contains(front[i]));
        }
        assert forall|i: int| 0 <= i < start implies #[trigger] front[i] != "IMPORTS"@ by {
            assert(front.contains(front[i]));
        }
        assert(all[start] == "IMPORTS"@);
        lemma_position_is_first(all, "IMPORTS"@, 0, start);
        lemma_position_is_first(front, "IMPORTS"@, 0, start);
        lemma_imports_move(all, start + 1, 0, none, Map::empty());
        assert(all.skip(start + 1) =~= rest);
    }
}

/// A module starts at the index: its name stands before `DEFINITIONS`.
pub open spec fn starts_module(words: Seq<Seq<char>>, index: int) -> bool {
    0 <= index && index + 1 < words.len() && starts_upper(words[index]) && words[index + 1]
        == "DEFINITIONS"@
}

proof fn lemma_module_start_is_first(words: Seq<Seq<char>>, index: int, end: int)
    requires
        0 <= index <= end <= words.len(),
        forall|i: int| index <= i < end ==> !(#[trigger] starts_module(words, i)),
        end < words.len() ==> starts_module(words, end),
    ensures
        module_start(words, index) == end,
    decreases end - index,
{
    if index < end {
        assert(!starts_module(words, index));
        lemma_module_start_is_first(words, index + 1, end);
    }
}

proof fn lemma_module_start_moves(words: Seq<Seq<char>>, start: int, index: int)
    requires
        0 <= start <= words.len(),
        0 <= index,
        start + index <= words.len(),
    ensures
        module_start(words, start + index) == start + module_start(words.skip(start), index),
    decreases words.len() - index,
{
    if start + index < words.len() {
        lemma_module_start_moves(words, start, index + 1);
        assert(module_starts_at(words, start + index) == module_starts_at(
            words.skip(start),
            index,
        ));
    }
}

proof fn lemma_definitions_move(words: Seq<Seq<char>>, start: int, index: int)
    requires
        0 <= start <= words.len(),
        0 <= index,
    ensures
        definitions_from(words, start + index) == definitions_from(words.skip(start), index),
    decreases words.len() - index,
{
    let rest = words.skip(start);
    if start + index < words.len() {
        lemma_module_start_moves(words, start, index + 1);
        lemma_module_start(rest, index + 1);
        let end = module_start(rest, index + 1);
        assert(words.subrange(start + index, start + end) =~= rest.subrange(index, end));
        lemma_definitions_move(words, start, end);
    }
}

/// A module reaches up to the next, and what comes behind it is read by itself.
pub proof fn modules_are_read_one_by_one(first: Seq<Seq<char>>, rest: Seq<Seq<char>>)
    requires
        first.len() > 0,
        forall|i: int| 1 <= i < first.len() ==> !(#[trigger] starts_module(first + rest, i)),
        rest.len() > 0 ==> starts_module(rest, 0),
    ensures
        definitions_from(first + rest, 0) == module_definitions(Some(first[0]), first)
            + definitions_from(rest, 0),
        definitions_from(Seq::empty(), 0) == Seq::<DefinitionView>::empty(),
{
    let words = first + rest;
    let end = first.len() as int;
    if rest.len() > 0 {
        assert(words[end] == rest[0]);
        assert(words[end + 1] == rest[1]);
        assert(starts_module(words, end));
    }
    lemma_module_start_is_first(words, 1, end);
    assert(words.subrange(0, end) =~= first);
    lemma_definitions_move(words, end, 0);
    assert(words.skip(end) =~= rest);
}

/// A file is read from its first module on. Where none starts, its words are those of one module
/// without a name.
pub proof fn files_are_read_from_their_first_module(
    contents: Seq<char>,
    front: Seq<Seq<char>>,
    rest: Seq<Seq<char>>,
)
    requires
        tokens(stripped(contents, 0), 0) == front + rest,
        forall|i: int| 0 <= i < front.len() ==> !(#[trigger] starts_module(front + rest, i)),
        rest.len() > 0 ==> starts_module(rest, 0),
    ensures
        rest.len() > 0 ==> file_definitions(contents) == definitions_from(rest, 0),
        rest.len() == 0 ==> file_definitions(contents) == module_definitions(None, front),
{
    let words = front + rest;
    let start = front.len() as int;
    if rest.len() > 0 {
        assert(words[start] == rest[0]);
        assert(words[start + 1] == rest[1]);
        assert(starts_module(words, start));
    }
    lemma_module_start_is_first(words, 0, start);
    lemma_definitions_move(words, start, 0);
    assert(words.skip(start) =~= rest);
    if rest.len() == 0 {
        assert(words =~= front);
    }
}

/// A value with a word in it that is no element cannot be read. Nor can one with a module that no
/// symbol follows.
pub proof fn other_words_are_no_elements(
    word: Seq<char>,
    module: Seq<char>,
    rest: Seq<Seq<char>>,
    scope: ScopeView,
)
    requires
        is_no_number(word),
        word != ","@,
        word != ";"@,
        !starts_with_parenthesized(rest),
        starts_upper(module),
        word != "("@,
    ensures
        !starts_lower(word) && !starts_upper(word) ==> oid_elements(
            seq![word] + rest,
            scope,
            0,
            None,
        ) is None,
        !starts_lower(word) ==> oid_elements(seq![module, word] + rest, scope, 0, None) is None,
        oid_elements(seq![module], scope, 0, None) is None,
{
    let one = seq![word] + rest;
    let two = seq![module, word] + rest;
    let lone = seq![module];
    lemma_word_is_no_number(module);
    assert(one.skip(1) =~= rest);
    lemma_no_parentheses(one, 0, rest);
    assert(two[0] == module && two[1] == word);
    assert(two.skip(2) =~= rest);
    lemma_no_parentheses(two, 1, rest);
    assert(parenthesized_number(two, 0) is None);
    if !starts_lower(word) {
        assert(oid_elements(two, scope, 1, Some(module)) is None);
    }
    assert(parenthesized_number(lone, 0) is None);
    assert(oid_elements(lone, scope, 1, Some(module)) is None);
}

/// A number behind a module cannot be read.
pub proof fn modules_do_not_qualify_numbers(
    module: Seq<char>,
    digits: Seq<char>,
    number: u32,
    rest: Seq<Seq<char>>,
    scope: ScopeView,
)
    requires
        starts_upper(module),
        is_arc(digits, number),
    ensures
        oid_elements(seq![module, digits] + rest, scope, 0, None) is None,
{
    reveal_strlit("(");
    reveal_strlit(",");
    reveal_strlit(";");
    let words = seq![module, digits] + rest;
    lemma_word_is_no_number(module);
    assert(words[0] == module && words[1] == digits);
    if digits == "("@ || digits == ","@ || digits == ";"@ {
        assert(digits.len() == 1 && !is_decimal_digit(digits[0]));
    }
    assert(parenthesized_number(words, 0) is None);
    assert(oid_elements(words, scope, 1, Some(module)) is None);
}

/// Without an assignment, or without a brace behind it, there is no value.
pub proof fn values_need_an_assignment(
    front: Seq<Seq<char>>,
    clauses: Seq<Seq<char>>,
    word: Seq<char>,
    rest: Seq<Seq<char>>,
    scope: ScopeView,
)
    requires
        !clauses.contains("::="@),
        word != "{"@,
    ensures
        assigned_elements(front + clauses, front.len() as int, scope) is None,
        assigned_elements(
            front + clauses + seq!["::="@, word] + rest,
            front.len() as int,
            scope,
        ) is None,
        trap_elements(front + clauses, front.len() as int, scope) is None,
        is_no_number(word) ==> trap_elements(
            front + clauses + seq!["::="@, word] + rest,
            front.len() as int,
            scope,
        ) is None,
{
    let start = front.len() as int;
    let end = start + clauses.len();
    let none = front + clauses;
    let words = front + clauses + seq!["::="@, word] + rest;
    assert forall|i: int| start <= i < end implies #[trigger] none[i] != "::="@ by {
        assert(none[i] == clauses[i - start]);
        assert(clauses.contains(clauses[i - start]));
    }
    assert forall|i: int| start <= i < end implies #[trigger] words[i] != "::="@ by {
        assert(words[i] == clauses[i - start]);
        assert(clauses.contains(clauses[i - start]));
    }
    assert(words[end] == "::="@);
    assert(words[end + 1] == word);
    lemma_position_is_first(none, "::="@, start, end);
    lemma_position_is_first(words, "::="@, start, end);
}

/// A trap without an enterprise has no value.
pub proof fn traps_need_an_enterprise(
    front: Seq<Seq<char>>,
    clauses: Seq<Seq<char>>,
    digits: Seq<char>,
    number: u32,
    rest: Seq<Seq<char>>,
    scope: ScopeView,
)
    requires
        !clauses.contains("ENTERPRISE"@),
        !clauses.contains("::="@),
        is_arc(digits, number),
    ensures
        trap_elements(
            front + clauses + seq!["::="@, digits] + rest,
            front.len() as int,
            scope,
        ) is None,
{
    let end = clauses.len() as int;
    assert forall|i: int| 0 <= i < end implies #[trigger] clauses[i] != "ENTERPRISE"@ && clauses[i]
        != "::="@ by {
        assert(clauses.contains(clauses[i]));
    }
    lemma_position_is_first(clauses, "ENTERPRISE"@, 0, end);
    lemma_trap(front, clauses, digits, number, rest, scope);
}

} // verus!
