//! What the names that definitions give stand for.

use crate::mib::laws::{
    all_among, lemma_in_turn_among, lemma_in_turn_contains, lemma_listed_are_waiting,
    lemma_names_are_symbols, lemma_push_contains, waiting_stem_from, waits,
};
use crate::mib::parser::{DefinitionView, ElementView, SymbolRefView};
use crate::mib::state::{
    answers_to, before_definitions, in_turn, last_answering, lists, qualified, resolve_to,
    symbols_of, ElementResolutionView, Progress, StateView,
};
use crate::mib::table::{oid_less, SymbolView};
use vstd::prelude::*;
use vstd::string::*;

verus! {

/// A thing of the module and the name can be referred to by the key.
pub open spec fn is_called(module: Option<Seq<char>>, name: Seq<char>, key: Seq<char>) -> bool {
    key == name || (module is Some && key == module->0 + "::"@ + name)
}

/// The number of an element that has one.
pub open spec fn number_of(element: ElementView) -> u32 {
    match element {
        ElementView::Number(number) => number,
        ElementView::NamedNumber(_, number) => number,
        ElementView::Symbol(_) => 0,
    }
}

/// The numbers of the elements from `start` on.
pub open spec fn numbers_from(elements: Seq<ElementView>, start: int) -> Seq<u32> {
    Seq::new((elements.len() - start) as nat, |i: int| number_of(elements[start + i]))
}

/// The elements spell the object identifier: `base`, which is nothing, or what the last symbol or a
/// name before the first number means, and behind it the numbers from `start` on.
pub open spec fn spells_from(
    meanings: Set<(Seq<char>, Seq<u32>)>,
    elements: Seq<ElementView>,
    oid: Seq<u32>,
    start: int,
    base: Seq<u32>,
) -> bool {
    &&& 0 <= start <= elements.len()
    &&& forall|i: int| start <= i < elements.len() ==> !(#[trigger] elements[i] is Symbol)
    &&& oid == base + numbers_from(elements, start)
    &&& {
        ||| start == 0 && base.len() == 0
        ||| start > 0 && elements[start - 1] is Symbol && exists|key: Seq<char>|
            is_called(
                elements[start - 1]->Symbol_0.module,
                elements[start - 1]->Symbol_0.name,
                key,
            ) && #[trigger] meanings.contains((key, base))
        ||| start == 1 && elements[0] is NamedNumber && exists|parent: Seq<u32>|
            #[trigger] meanings.contains((elements[0]->NamedNumber_0, parent)) && base == (if
                parent.len() > 0 && parent.last() == number_of(elements[0]) {
                parent
            } else {
                parent.push(number_of(elements[0]))
            })
    }
}

/// The elements spell the object identifier, if the keys have the meanings.
pub open spec fn spells(
    meanings: Set<(Seq<char>, Seq<u32>)>,
    elements: Seq<ElementView>,
    oid: Seq<u32>,
) -> bool {
    exists|start: int, base: Seq<u32>| #[trigger]
        spells_from(meanings, elements, oid, start, base)
}

/// A definition that can be referred to by the key spells the object identifier.
pub open spec fn is_defined(
    meanings: Set<(Seq<char>, Seq<u32>)>,
    definitions: Seq<DefinitionView>,
    key: Seq<char>,
    oid: Seq<u32>,
) -> bool {
    exists|i: int|
        0 <= i < definitions.len() && is_called(
            (#[trigger] definitions[i]).module,
            definitions[i].name,
            key,
        ) && spells(meanings, definitions[i].elements, oid)
}

/// What the keys mean: the object identifiers that they name from the start, and those that
/// definitions spell, where at most `depth` definitions follow from each other.
pub open spec fn meanings_of(
    names: Map<Seq<u32>, SymbolView>,
    definitions: Seq<DefinitionView>,
    depth: nat,
) -> Set<(Seq<char>, Seq<u32>)>
    decreases depth,
{
    if depth == 0 {
        Set::new(
            |meaning: (Seq<char>, Seq<u32>)|
                names.contains_key(meaning.1) && is_called(
                    names[meaning.1].module,
                    names[meaning.1].name,
                    meaning.0,
                ),
        )
    } else {
        let known = meanings_of(names, definitions, (depth - 1) as nat);
        known.union(
            Set::new(
                |meaning: (Seq<char>, Seq<u32>)|
                    is_defined(known, definitions, meaning.0, meaning.1),
            ),
        )
    }
}

/// The elements spell the object identifier, however many definitions follow from each other.
pub open spec fn can_spell(
    names: Map<Seq<u32>, SymbolView>,
    definitions: Seq<DefinitionView>,
    elements: Seq<ElementView>,
    oid: Seq<u32>,
) -> bool {
    exists|depth: nat| spells(#[trigger] meanings_of(names, definitions, depth), elements, oid)
}

/// The key means the object identifier, however many definitions follow from each other.
pub open spec fn can_mean(
    names: Map<Seq<u32>, SymbolView>,
    definitions: Seq<DefinitionView>,
    key: Seq<char>,
    oid: Seq<u32>,
) -> bool {
    exists|depth: nat| (#[trigger] meanings_of(names, definitions, depth)).contains((key, oid))
}

/// Every symbol means what it stands for.
spec fn is_grounded(
    state: StateView,
    names: Map<Seq<u32>, SymbolView>,
    definitions: Seq<DefinitionView>,
) -> bool {
    forall|key: Seq<char>| #[trigger]
        state.symbols.contains_key(key) ==> state.symbols[key].len() > 0 && can_mean(
            names,
            definitions,
            key,
            state.symbols[key],
        )
}

/// A number behind what was spelled is its next arc.
proof fn lemma_spells_number(
    names: Map<Seq<u32>, SymbolView>,
    definitions: Seq<DefinitionView>,
    elements: Seq<ElementView>,
    index: int,
    oid: Seq<u32>,
)
    requires
        0 <= index < elements.len(),
        !(elements[index] is Symbol),
        can_spell(names, definitions, elements.take(index), oid),
    ensures
        can_spell(
            names,
            definitions,
            elements.take(index + 1),
            oid.push(number_of(elements[index])),
        ),
{
    let before = elements.take(index);
    let after = elements.take(index + 1);
    let number = number_of(elements[index]);
    let depth = choose|depth: nat|
        spells(#[trigger] meanings_of(names, definitions, depth), before, oid);
    let meanings = meanings_of(names, definitions, depth);
    let (start, base) = choose|start: int, base: Seq<u32>| #[trigger]
        spells_from(meanings, before, oid, start, base);
    assert(numbers_from(after, start) =~= numbers_from(before, start).push(number));
    assert(oid.push(number) =~= base + numbers_from(after, start));
    assert forall|i: int| start <= i < after.len() implies !(#[trigger] after[i] is Symbol) by {
        if i < index {
            assert(before[i] == after[i]);
        }
    }
    if start > 0 {
        assert(before[start - 1] == after[start - 1]);
        assert(before[0] == after[0]);
    }
    assert(spells_from(meanings, after, oid.push(number), start, base));
}

proof fn lemma_resolved_is_spelled(
    state: StateView,
    names: Map<Seq<u32>, SymbolView>,
    definitions: Seq<DefinitionView>,
    elements: Seq<ElementView>,
    index: int,
    oid: Seq<u32>,
)
    requires
        is_grounded(state, names, definitions),
        0 <= index <= elements.len(),
        can_spell(names, definitions, elements.take(index), oid),
        index > 0 ==> oid.len() > 0,
    ensures
        state.resolved_from(elements, index, oid) matches ElementResolutionView::Resolved(value)
            ==> value.len() > 0 && can_spell(names, definitions, elements, value),
    decreases elements.len() - index,
{
    if index == elements.len() {
        assert(elements.take(index) =~= elements);
    } else {
        let after = elements.take(index + 1);
        match elements[index] {
            ElementView::Number(number) => {
                lemma_spells_number(names, definitions, elements, index, oid);
                lemma_resolved_is_spelled(
                    state,
                    names,
                    definitions,
                    elements,
                    index + 1,
                    oid.push(number),
                );
            },
            ElementView::Symbol(symbol) => {
                if let Ok(arcs) = state.referenced(symbol) {
                    let key = if symbol.module is Some && state.symbols.contains_key(
                        qualified(symbol.module->0, symbol.name),
                    ) {
                        qualified(symbol.module->0, symbol.name)
                    } else {
                        symbol.name
                    };
                    assert(state.symbols.contains_key(key));
                    let depth = choose|depth: nat|
                        (#[trigger] meanings_of(names, definitions, depth)).contains((key, arcs));
                    let meanings = meanings_of(names, definitions, depth);
                    assert(numbers_from(after, index + 1) =~= Seq::empty());
                    assert(arcs =~= arcs + numbers_from(after, index + 1));
                    assert(is_called(symbol.module, symbol.name, key));
                    assert(spells_from(meanings, after, arcs, index + 1, arcs));
                    lemma_resolved_is_spelled(
                        state,
                        names,
                        definitions,
                        elements,
                        index + 1,
                        arcs,
                    );
                }
            },
            ElementView::NamedNumber(name, number) => {
                if oid.len() == 0 && state.symbols.contains_key(name) {
                    let arcs = state.symbols[name];
                    let base = if arcs.len() > 0 && arcs.last() == number {
                        arcs
                    } else {
                        arcs.push(number)
                    };
                    let depth = choose|depth: nat|
                        (#[trigger] meanings_of(names, definitions, depth)).contains((name, arcs));
                    let meanings = meanings_of(names, definitions, depth);
                    assert(numbers_from(after, 1) =~= Seq::empty());
                    assert(base =~= base + numbers_from(after, 1));
                    assert(after[0] == elements[0]);
                    assert(spells_from(meanings, after, base, 1, base));
                    lemma_resolved_is_spelled(
                        state,
                        names,
                        definitions,
                        elements,
                        index + 1,
                        base,
                    );
                } else {
                    lemma_spells_number(names, definitions, elements, index, oid);
                    lemma_resolved_is_spelled(
                        state,
                        names,
                        definitions,
                        elements,
                        index + 1,
                        oid.push(number),
                    );
                }
            },
        }
    }
}

proof fn lemma_resolved_spells(
    state: StateView,
    names: Map<Seq<u32>, SymbolView>,
    definitions: Seq<DefinitionView>,
    elements: Seq<ElementView>,
)
    requires
        is_grounded(state, names, definitions),
    ensures
        state.resolved(elements) matches ElementResolutionView::Resolved(value) ==> value.len() > 0
            && can_spell(names, definitions, elements, value),
{
    let none = Seq::<ElementView>::empty();
    let arcs = Seq::<u32>::empty();
    assert(elements.take(0) =~= none);
    assert(numbers_from(none, 0) =~= arcs);
    assert(arcs =~= arcs + numbers_from(none, 0));
    assert(spells_from(meanings_of(names, definitions, 0), none, arcs, 0, arcs));
    lemma_resolved_is_spelled(state, names, definitions, elements, 0, arcs);
}

/// Every name stems from the start, or is that of a definition whose elements spell the object
/// identifier.
pub open spec fn names_are_spelled(
    extended: Map<Seq<u32>, SymbolView>,
    names: Map<Seq<u32>, SymbolView>,
    definitions: Seq<DefinitionView>,
) -> bool {
    forall|oid: Seq<u32>| #[trigger]
        extended.contains_key(oid) ==> (names.contains_key(oid) && extended[oid] == names[oid])
            || exists|i: int|
            {
                &&& 0 <= i < definitions.len()
                &&& extended[oid].module == (#[trigger] definitions[i]).module
                &&& extended[oid].name == definitions[i].name
                &&& extended[oid].prefix_resolves == definitions[i].prefix_resolves
                &&& can_spell(names, definitions, definitions[i].elements, oid)
            }
}

/// The elements have a value, whatever the symbols in them mean: only the first is a symbol.
pub open spec fn has_value(elements: Seq<ElementView>) -> bool {
    elements.len() > 0 && forall|i: int|
        1 <= i < elements.len() ==> !(#[trigger] elements[i] is Symbol)
}

/// The object identifier that the definition spells is named, or the definition waits.
pub open spec fn is_named_or_waits(
    definition: DefinitionView,
    names: Map<Seq<u32>, SymbolView>,
    definitions: Seq<DefinitionView>,
    extended: Map<Seq<u32>, SymbolView>,
    waiting: Map<Seq<char>, Seq<DefinitionView>>,
) -> bool {
    waits(definition, waiting) || exists|oid: Seq<u32>| #[trigger]
        extended.contains_key(oid) && can_spell(names, definitions, definition.elements, oid)
}

spec fn follows(
    progress: Progress,
    names: Map<Seq<u32>, SymbolView>,
    definitions: Seq<DefinitionView>,
) -> bool {
    &&& is_grounded(progress.state, names, definitions)
    &&& names_are_spelled(progress.names, names, definitions)
    &&& waiting_stem_from(progress.state.waiting, definitions)
}

spec fn completes(
    progress: Progress,
    names: Map<Seq<u32>, SymbolView>,
    definitions: Seq<DefinitionView>,
    definition: DefinitionView,
) -> bool {
    has_value(definition.elements) ==> is_named_or_waits(
        definition,
        names,
        definitions,
        progress.names,
        progress.state.waiting,
    )
}

proof fn lemma_values_are_valid_from(
    state: StateView,
    names: Map<Seq<u32>, SymbolView>,
    definitions: Seq<DefinitionView>,
    elements: Seq<ElementView>,
    index: int,
    oid: Seq<u32>,
)
    requires
        is_grounded(state, names, definitions),
        has_value(elements),
        0 <= index <= elements.len(),
        index > 0 ==> oid.len() > 0,
        index == 0 ==> oid.len() == 0,
    ensures
        !(state.resolved_from(elements, index, oid) is Invalid),
    decreases elements.len() - index,
{
    if index < elements.len() {
        match elements[index] {
            ElementView::Number(number) => {
                lemma_values_are_valid_from(
                    state,
                    names,
                    definitions,
                    elements,
                    index + 1,
                    oid.push(number),
                );
            },
            ElementView::Symbol(symbol) => {
                if let Ok(arcs) = state.referenced(symbol) {
                    assert(oid.is_prefix_of(arcs));
                    assert(state.symbols.contains_key(symbol.name) || state.symbols.contains_key(
                        qualified(symbol.module->0, symbol.name),
                    ));
                    lemma_values_are_valid_from(
                        state,
                        names,
                        definitions,
                        elements,
                        index + 1,
                        arcs,
                    );
                }
            },
            ElementView::NamedNumber(name, number) => {
                lemma_values_are_valid_from(
                    state,
                    names,
                    definitions,
                    elements,
                    index + 1,
                    oid.push(number),
                );
                if state.symbols.contains_key(name) {
                    lemma_values_are_valid_from(
                        state,
                        names,
                        definitions,
                        elements,
                        index + 1,
                        state.symbols[name],
                    );
                    lemma_values_are_valid_from(
                        state,
                        names,
                        definitions,
                        elements,
                        index + 1,
                        state.symbols[name].push(number),
                    );
                }
            },
        }
    }
}

/// What a definition spells is what it means.
proof fn lemma_definition_means(
    names: Map<Seq<u32>, SymbolView>,
    definitions: Seq<DefinitionView>,
    definition: DefinitionView,
    key: Seq<char>,
    oid: Seq<u32>,
)
    requires
        definitions.contains(definition),
        is_called(definition.module, definition.name, key),
        can_spell(names, definitions, definition.elements, oid),
    ensures
        can_mean(names, definitions, key, oid),
{
    let place = choose|place: int|
        0 <= place < definitions.len() && definitions[place] == definition;
    let depth = choose|depth: nat|
        spells(#[trigger] meanings_of(names, definitions, depth), definition.elements, oid);
    let known = meanings_of(names, definitions, depth);
    assert(is_called(definitions[place].module, definitions[place].name, key));
    assert(is_defined(known, definitions, key, oid));
    assert(meanings_of(names, definitions, depth + 1).contains((key, oid)));
}

proof fn lemma_placed_follows(
    progress: Progress,
    placed: DefinitionView,
    names: Map<Seq<u32>, SymbolView>,
    definitions: Seq<DefinitionView>,
    definition: DefinitionView,
)
    requires
        follows(progress, names, definitions),
        definitions.contains(placed),
        completes(progress, names, definitions, definition) || definition == placed,
    ensures
        follows(progress.placed(placed), names, definitions),
        completes(progress.placed(placed), names, definitions, definition),
{
    let after = progress.placed(placed);
    lemma_resolved_spells(progress.state, names, definitions, placed.elements);
    if has_value(placed.elements) {
        lemma_values_are_valid_from(
            progress.state,
            names,
            definitions,
            placed.elements,
            0,
            Seq::empty(),
        );
    }
    match progress.state.resolved(placed.elements) {
        ElementResolutionView::Resolved(oid) => {
            let place = choose|place: int|
                0 <= place < definitions.len() && definitions[place] == placed;
            assert forall|key: Seq<char>| #[trigger]
                after.state.symbols.contains_key(key) implies after.state.symbols[key].len() > 0
                && can_mean(names, definitions, key, after.state.symbols[key]) by {
                if is_called(placed.module, placed.name, key) {
                    lemma_definition_means(names, definitions, placed, key, oid);
                } else {
                    assert(progress.state.symbols.contains_key(key));
                }
            }
            assert forall|other: Seq<u32>| #[trigger] after.names.contains_key(other) implies (
            names.contains_key(other) && after.names[other] == names[other]) || exists|i: int|
                {
                    &&& 0 <= i < definitions.len()
                    &&& after.names[other].module == (#[trigger] definitions[i]).module
                    &&& after.names[other].name == definitions[i].name
                    &&& after.names[other].prefix_resolves == definitions[i].prefix_resolves
                    &&& can_spell(names, definitions, definitions[i].elements, other)
                } by {
                if other == oid {
                    assert(after.names[other].name == definitions[place].name);
                } else {
                    assert(progress.names.contains_key(other));
                }
            }
            if has_value(definition.elements) {
                if definition == placed {
                    assert(after.names.contains_key(oid));
                } else if !waits(definition, progress.state.waiting) {
                    let other = choose|other: Seq<u32>| #[trigger]
                        progress.names.contains_key(other) && can_spell(
                            names,
                            definitions,
                            definition.elements,
                            other,
                        );
                    assert(after.names.contains_key(other));
                } else {
                    assert(after.state.waiting == progress.state.waiting);
                }
            }
        },
        ElementResolutionView::Waiting(key) => {
            let bucket = if progress.state.waiting.contains_key(key) {
                progress.state.waiting[key]
            } else {
                Seq::empty()
            };
            lemma_push_contains(bucket, placed);
            assert(after.state.waiting.contains_key(key));
            assert forall|other: Seq<char>| #[trigger]
                after.state.waiting.contains_key(other) implies after.state.waiting[other].len() > 0
                && forall|i: int|
                0 <= i < after.state.waiting[other].len() ==> definitions.contains(
                    #[trigger] after.state.waiting[other][i],
                ) by {
                if other == key {
                    assert forall|i: int|
                        0 <= i < after.state.waiting[other].len() implies definitions.contains(
                        #[trigger] after.state.waiting[other][i],
                    ) by {
                        if i < bucket.len() {
                            assert(after.state.waiting[other][i] == bucket[i]);
                        }
                    }
                } else {
                    assert(progress.state.waiting.contains_key(other));
                }
            }
            assert forall|other: Seq<char>| #[trigger]
                after.state.symbols.contains_key(other) implies after.state.symbols[other].len()
                > 0 && can_mean(names, definitions, other, after.state.symbols[other]) by {
                assert(progress.state.symbols.contains_key(other));
            }
            if has_value(definition.elements) && definition != placed {
                if waits(definition, progress.state.waiting) {
                    let other = choose|other: Seq<char>| #[trigger]
                        progress.state.waiting.contains_key(other)
                            && progress.state.waiting[other].contains(definition);
                    assert(after.state.waiting.contains_key(other));
                    assert(after.state.waiting[other].contains(definition));
                } else {
                    assert(after.names == progress.names);
                }
            }
        },
        ElementResolutionView::Invalid => {},
    }
}

proof fn lemma_placed_all_follows(
    progress: Progress,
    items: Seq<DefinitionView>,
    names: Map<Seq<u32>, SymbolView>,
    definitions: Seq<DefinitionView>,
    definition: DefinitionView,
)
    requires
        follows(progress, names, definitions),
        all_among(items, definitions),
        completes(progress, names, definitions, definition) || items.contains(definition),
    ensures
        follows(progress.placed_all(items), names, definitions),
        completes(progress.placed_all(items), names, definitions, definition),
    decreases items.len(),
{
    if items.len() > 0 {
        let front = items.drop_last();
        if completes(progress, names, definitions, definition) || front.contains(definition) {
            lemma_placed_all_follows(progress, front, names, definitions, definition);
        } else {
            let place = choose|place: int| 0 <= place < items.len() && items[place] == definition;
            if place < front.len() {
                assert(front[place] == definition);
            }
            lemma_front_follows(progress, front, names, definitions);
        }
        lemma_placed_follows(
            progress.placed_all(front),
            items.last(),
            names,
            definitions,
            definition,
        );
    }
}

proof fn lemma_front_follows(
    progress: Progress,
    items: Seq<DefinitionView>,
    names: Map<Seq<u32>, SymbolView>,
    definitions: Seq<DefinitionView>,
)
    requires
        follows(progress, names, definitions),
        all_among(items, definitions),
    ensures
        follows(progress.placed_all(items), names, definitions),
    decreases items.len(),
{
    if items.len() > 0 {
        lemma_front_follows(progress, items.drop_last(), names, definitions);
        lemma_placed_follows(
            progress.placed_all(items.drop_last()),
            items.last(),
            names,
            definitions,
            items.last(),
        );
    }
}

proof fn lemma_drained_follows(
    progress: Progress,
    steps: nat,
    names: Map<Seq<u32>, SymbolView>,
    definitions: Seq<DefinitionView>,
    definition: DefinitionView,
)
    requires
        follows(progress, names, definitions),
        completes(progress, names, definitions, definition),
    ensures
        follows(progress.drained(steps), names, definitions),
        completes(progress.drained(steps), names, definitions, definition),
    decreases steps,
{
    if steps > 0 {
        lemma_drained_follows(progress, (steps - 1) as nat, names, definitions, definition);
        let before = progress.drained((steps - 1) as nat);
        if before.state.ready.len() > 0 {
            let symbol = before.state.ready[0];
            let state = StateView { ready: before.state.ready.skip(1), ..before.state };
            let after = Progress { names: before.names, state };
            assert(is_grounded(state, names, definitions)) by {
                assert forall|key: Seq<char>| #[trigger]
                    state.symbols.contains_key(key) implies state.symbols[key].len() > 0
                    && can_mean(names, definitions, key, state.symbols[key]) by {
                    assert(before.state.symbols.contains_key(key));
                }
            }
            if state.waiting.contains_key(symbol) {
                let between = Progress {
                    names: before.names,
                    state: StateView { waiting: state.waiting.remove(symbol), ..state },
                };
                let bucket = state.waiting[symbol];
                assert(before.state.waiting.contains_key(symbol));
                assert(all_among(bucket, definitions));
                assert forall|key: Seq<char>| #[trigger]
                    between.state.waiting.contains_key(key) implies between.state.waiting[key].len()
                    > 0 && forall|i: int|
                    0 <= i < between.state.waiting[key].len() ==> definitions.contains(
                        #[trigger] between.state.waiting[key][i],
                    ) by {
                    assert(before.state.waiting.contains_key(key));
                }
                assert(is_grounded(between.state, names, definitions)) by {
                    assert forall|key: Seq<char>| #[trigger]
                        between.state.symbols.contains_key(key) implies between.state.symbols[key].len()
                        > 0 && can_mean(names, definitions, key, between.state.symbols[key]) by {
                        assert(state.symbols.contains_key(key));
                    }
                }
                if has_value(definition.elements) && waits(definition, before.state.waiting)
                    && !bucket.contains(definition) {
                    let key = choose|key: Seq<char>| #[trigger]
                        before.state.waiting.contains_key(key)
                            && before.state.waiting[key].contains(definition);
                    assert(between.state.waiting.contains_key(key));
                    assert(between.state.waiting[key].contains(definition));
                }
                lemma_placed_all_follows(between, bucket, names, definitions, definition);
            } else {
                assert(before.stepped() == after);
            }
        }
    }
}

/// Every object identifier that is named in the end was named before, or is spelled by the elements
/// of the definition that its name is of. Every definition whose elements have a value in the end
/// has named what they spell, or is unresolved.
pub proof fn definitions_name_what_they_spell(
    names: Map<Seq<u32>, SymbolView>,
    definitions: Seq<DefinitionView>,
    extended: Map<Seq<u32>, SymbolView>,
    unresolved: Map<Seq<char>, Seq<DefinitionView>>,
    definition: DefinitionView,
)
    requires
        !names.contains_key(Seq::empty()),
        resolve_to(names, definitions, extended, unresolved),
        definitions.contains(definition),
    ensures
        names_are_spelled(extended, names, definitions),
        has_value(definition.elements) ==> is_named_or_waits(
            definition,
            names,
            definitions,
            extended,
            unresolved,
        ),
{
    let start = before_definitions(names, definitions);
    assert(follows(start, names, definitions)) by {
        assert forall|key: Seq<char>| #[trigger] start.state.symbols.contains_key(key) implies
            start.state.symbols[key].len() > 0 && can_mean(
            names,
            definitions,
            key,
            start.state.symbols[key],
        ) by {
            let oid = choose|oid: Seq<u32>| last_answering(names, key, oid);
            assert(start.state.symbols[key] == oid);
            assert(last_answering(names, key, oid));
            if oid.len() == 0 {
                assert(oid =~= Seq::empty());
            }
            assert(meanings_of(names, definitions, 0).contains((key, oid)));
        }
    }
    let (middle, order, end) = choose|middle: Progress, order: Seq<Seq<char>>, end: Progress|
        {
            &&& #[trigger] start.placed_all(definitions).drains_to(middle)
            &&& #[trigger] lists(order, middle.state.waiting)
            &&& #[trigger] middle.relaxed().placed_all(
                in_turn(middle.state.waiting, order),
            ).drains_to(end)
            &&& extended == end.names
            &&& unresolved == end.state.waiting
        };
    assert(all_among(definitions, definitions));
    lemma_placed_all_follows(start, definitions, names, definitions, definition);
    let steps = choose|steps: nat| #[trigger]
        start.placed_all(definitions).drained(steps) == middle;
    lemma_drained_follows(
        start.placed_all(definitions),
        steps,
        names,
        definitions,
        definition,
    );
    let again = in_turn(middle.state.waiting, order);
    let relaxed = middle.relaxed();
    assert(follows(relaxed, names, definitions)) by {
        assert forall|key: Seq<char>| #[trigger] relaxed.state.symbols.contains_key(key) implies
            relaxed.state.symbols[key].len() > 0 && can_mean(
            names,
            definitions,
            key,
            relaxed.state.symbols[key],
        ) by {
            assert(middle.state.symbols.contains_key(key));
        }
    }
    lemma_listed_are_waiting(middle.state.waiting, order);
    lemma_in_turn_among(middle.state.waiting, order, definitions);
    if has_value(definition.elements) && waits(definition, middle.state.waiting) {
        let key = choose|key: Seq<char>| #[trigger]
            middle.state.waiting.contains_key(key) && middle.state.waiting[key].contains(
                definition,
            );
        assert(order.to_set().contains(key));
        let place = choose|place: int| 0 <= place < order.len() && order[place] == key;
        lemma_in_turn_contains(middle.state.waiting, order, place, definition);
    }
    lemma_placed_all_follows(relaxed, again, names, definitions, definition);
    let more = choose|steps: nat| #[trigger]
        relaxed.placed_all(again).drained(steps) == end;
    lemma_drained_follows(relaxed.placed_all(again), more, names, definitions, definition);
}

/// A reference is to the symbol of its module, where that is known. Where the module is loaded and
/// references are strict, no other symbol will do. Where it is not loaded, or references are not
/// strict, or none is given, any symbol of the name will.
pub proof fn references_prefer_their_module(
    state: StateView,
    module: Seq<char>,
    name: Seq<char>,
    arcs: Seq<u32>,
    others: Seq<u32>,
)
    ensures
        state.symbols.contains_pair(module + "::"@ + name, arcs) ==> state.referenced(
            SymbolRefView { module: Some(module), name },
        ) == Ok::<_, Seq<char>>(arcs),
        !state.symbols.contains_key(module + "::"@ + name) && state.strict
            && state.loaded_modules.contains(module) ==> state.referenced(
            SymbolRefView { module: Some(module), name },
        ) == Err::<Seq<u32>, _>(module + "::"@ + name),
        !state.symbols.contains_key(module + "::"@ + name) && !(state.strict
            && state.loaded_modules.contains(module)) ==> state.referenced(
            SymbolRefView { module: Some(module), name },
        ) == state.referenced(SymbolRefView { module: None, name }),
        state.symbols.contains_pair(name, others) ==> state.referenced(
            SymbolRefView { module: None, name },
        ) == Ok::<_, Seq<char>>(others),
        !state.symbols.contains_key(name) ==> state.referenced(
            SymbolRefView { module: None, name },
        ) == Err::<Seq<u32>, _>(name),
{
}

/// The elements of numbers.
pub open spec fn number_elements(numbers: Seq<u32>) -> Seq<ElementView> {
    numbers.map_values(|number: u32| ElementView::Number(number))
}

proof fn lemma_numbers_follow(
    state: StateView,
    front: Seq<ElementView>,
    numbers: Seq<u32>,
    index: int,
    oid: Seq<u32>,
)
    requires
        0 <= index <= numbers.len(),
    ensures
        state.resolved_from(front + number_elements(numbers), front.len() + index, oid) == (if
            oid.len() + numbers.len() - index == 0 {
            ElementResolutionView::Invalid
        } else {
            ElementResolutionView::Resolved(oid + numbers.skip(index))
        }),
    decreases numbers.len() - index,
{
    let elements = front + number_elements(numbers);
    if index < numbers.len() {
        assert(elements[front.len() + index] == ElementView::Number(numbers[index]));
        lemma_numbers_follow(state, front, numbers, index + 1, oid.push(numbers[index]));
        assert(oid.push(numbers[index]) + numbers.skip(index + 1) =~= oid + numbers.skip(index));
    } else {
        assert(oid + numbers.skip(index) =~= oid);
    }
}

/// Numbers alone are the object identifier. Numbers behind a symbol stand behind what the symbol
/// refers to, or wait for it with the rest. A number with a name that is not known counts by
/// itself.
pub proof fn numbers_follow_their_parent(
    state: StateView,
    symbol: SymbolRefView,
    name: Seq<char>,
    number: u32,
    numbers: Seq<u32>,
)
    ensures
        numbers.len() > 0 ==> state.resolved(number_elements(numbers))
            == ElementResolutionView::Resolved(numbers),
        state.resolved(Seq::empty()) == ElementResolutionView::Invalid,
        state.referenced(symbol) matches Ok(arcs) && arcs.len() > 0 ==> state.resolved(
            seq![ElementView::Symbol(symbol)] + number_elements(numbers),
        ) == ElementResolutionView::Resolved(state.referenced(symbol)->Ok_0 + numbers),
        state.referenced(symbol) matches Err(key) ==> state.resolved(
            seq![ElementView::Symbol(symbol)] + number_elements(numbers),
        ) == ElementResolutionView::Waiting(key),
        !state.symbols.contains_key(name) ==> state.resolved(
            seq![ElementView::NamedNumber(name, number)] + number_elements(numbers),
        ) == ElementResolutionView::Resolved(seq![number] + numbers),
        state.symbols.contains_key(name) && state.symbols[name].len() > 0
            && state.symbols[name].last() == number ==> state.resolved(
            seq![ElementView::NamedNumber(name, number)] + number_elements(numbers),
        ) == ElementResolutionView::Resolved(state.symbols[name] + numbers),
        state.symbols.contains_key(name) && state.symbols[name].len() > 0
            && state.symbols[name].last() != number ==> state.resolved(
            seq![ElementView::NamedNumber(name, number)] + number_elements(numbers),
        ) == ElementResolutionView::Resolved(state.symbols[name] + seq![number] + numbers),
{
    let none = Seq::<ElementView>::empty();
    let arcs = Seq::<u32>::empty();
    assert(numbers.skip(0) =~= numbers);
    lemma_numbers_follow(state, none, numbers, 0, arcs);
    assert(none + number_elements(numbers) =~= number_elements(numbers));
    assert(arcs + numbers =~= numbers);
    let first = seq![ElementView::Symbol(symbol)];
    assert((first + number_elements(numbers))[0] == ElementView::Symbol(symbol));
    if let Ok(parent) = state.referenced(symbol) {
        assert(arcs.is_prefix_of(parent));
        lemma_numbers_follow(state, first, numbers, 0, parent);
    }
    let named = seq![ElementView::NamedNumber(name, number)];
    assert((named + number_elements(numbers))[0] == ElementView::NamedNumber(name, number));
    lemma_numbers_follow(state, named, numbers, 0, arcs.push(number));
    assert(arcs.push(number) =~= seq![number]);
    if state.symbols.contains_key(name) {
        let parent = state.symbols[name];
        lemma_numbers_follow(state, named, numbers, 0, parent);
        lemma_numbers_follow(state, named, numbers, 0, parent.push(number));
        assert(parent.push(number) =~= parent + seq![number]);
    }
}

/// A definition that resolves names its value at once, by itself and with its module, and leaves
/// every other name and symbol as it was.
pub proof fn resolved_definitions_are_named(
    progress: Progress,
    definition: DefinitionView,
    oid: Seq<u32>,
)
    requires
        progress.state.resolved(definition.elements) == ElementResolutionView::Resolved(oid),
    ensures
        ({
            let after = progress.placed(definition);
            &&& after.names.contains_key(oid)
            &&& after.names[oid].module == definition.module
            &&& after.names[oid].name == definition.name
            &&& after.names[oid].prefix_resolves == definition.prefix_resolves
            &&& after.names.remove(oid) == progress.names.remove(oid)
            &&& forall|key: Seq<char>| #[trigger]
                is_called(definition.module, definition.name, key)
                    ==> after.state.symbols.contains_pair(key, oid) && after.state.ready.contains(
                    key,
                )
            &&& forall|key: Seq<char>|
                !(#[trigger] is_called(definition.module, definition.name, key))
                    ==> after.state.symbols.contains_key(key)
                    == progress.state.symbols.contains_key(key) && after.state.symbols[key]
                    == progress.state.symbols[key]
            &&& after.state.waiting == progress.state.waiting
            &&& after.state.strict == progress.state.strict
            &&& after.state.loaded_modules == progress.state.loaded_modules
        }),
{
    let after = progress.placed(definition);
    assert(after.names.remove(oid) =~= progress.names.remove(oid));
    let ready = progress.state.ready.push(definition.name);
    lemma_push_contains(progress.state.ready, definition.name);
    if definition.module is Some {
        let key = qualified(definition.module->0, definition.name);
        lemma_push_contains(ready, key);
    }
}

/// A definition that waits is tried again once the symbol is known, and changes nothing until then.
pub proof fn waiting_definitions_change_nothing(
    progress: Progress,
    definition: DefinitionView,
    key: Seq<char>,
)
    requires
        progress.state.resolved(definition.elements) == ElementResolutionView::Waiting(key),
    ensures
        ({
            let after = progress.placed(definition);
            &&& after.names == progress.names
            &&& after.state.symbols == progress.state.symbols
            &&& after.state.ready == progress.state.ready
            &&& after.state.waiting.contains_key(key)
            &&& after.state.waiting[key].last() == definition
            &&& after.state.waiting[key].drop_last() == (if progress.state.waiting.contains_key(
                key,
            ) {
                progress.state.waiting[key]
            } else {
                Seq::empty()
            })
            &&& after.state.waiting.remove(key) == progress.state.waiting.remove(key)
        }),
{
    let after = progress.placed(definition);
    let bucket = if progress.state.waiting.contains_key(key) {
        progress.state.waiting[key]
    } else {
        Seq::empty()
    };
    assert(bucket.push(definition).drop_last() =~= bucket);
    assert(after.state.waiting.remove(key) =~= progress.state.waiting.remove(key));
}

/// A key stands for the last of the object identifiers that it names.
pub proof fn keys_stand_for_the_last_of_their_names(
    names: Map<Seq<u32>, SymbolView>,
    key: Seq<char>,
    oid: Seq<u32>,
)
    requires
        names.dom().finite(),
        names.contains_key(oid),
        is_called(names[oid].module, names[oid].name, key),
    ensures
        symbols_of(names).contains_key(key),
        names.contains_key(symbols_of(names)[key]),
        is_called(names[symbols_of(names)[key]].module, names[symbols_of(names)[key]].name, key),
        oid == symbols_of(names)[key] || oid_less(oid, symbols_of(names)[key]),
{
    lemma_names_are_symbols(names, oid, key);
    let last = choose|last: Seq<u32>| last_answering(names, key, last);
    assert(last_answering(names, key, last));
    assert(symbols_of(names)[key] == last);
    assert(answers_to(names[oid], key));
}

/// Definitions are placed one behind the other, so that of two for one object identifier the later
/// one names it.
pub proof fn definitions_are_placed_in_order(
    progress: Progress,
    front: Seq<DefinitionView>,
    back: Seq<DefinitionView>,
    definition: DefinitionView,
)
    ensures
        progress.placed_all(Seq::empty()) == progress,
        progress.placed_all(seq![definition]) == progress.placed(definition),
        progress.placed_all(front + back) == progress.placed_all(front).placed_all(back),
    decreases back.len(),
{
    let none = Seq::<DefinitionView>::empty();
    assert(seq![definition].drop_last() =~= none);
    reveal_with_fuel(Progress::placed_all, 2);
    if back.len() == 0 {
        assert(front + back =~= front);
    } else {
        definitions_are_placed_in_order(progress, front, back.drop_last(), definition);
        assert((front + back).drop_last() =~= front + back.drop_last());
    }
}

/// Before any definition is placed, what is named is known, the modules of the definitions are
/// loaded, nothing waits, and references are strict.
pub proof fn resolution_starts_from_the_names(
    names: Map<Seq<u32>, SymbolView>,
    definitions: Seq<DefinitionView>,
    module: Seq<char>,
)
    ensures
        ({
            let start = before_definitions(names, definitions);
            &&& start.names == names
            &&& start.state.symbols == symbols_of(names)
            &&& start.state.waiting.dom() == Set::<Seq<char>>::empty()
            &&& start.state.ready.len() == 0
            &&& start.state.strict
            &&& start.state.loaded_modules.contains(module) <==> exists|i: int|
                0 <= i < definitions.len() && (#[trigger] definitions[i]).module == Some(module)
        }),
{
    assert(before_definitions(names, definitions).state.waiting.dom() =~= Set::empty());
}

/// Trying again what waits keeps all that is known, and only drops the modules that references have
/// to be of.
pub proof fn trying_again_keeps_what_is_known(progress: Progress)
    ensures
        progress.relaxed().names == progress.names,
        progress.relaxed().state.symbols == progress.state.symbols,
        progress.relaxed().state.ready == progress.state.ready,
        !progress.relaxed().state.strict,
        progress.relaxed().state.waiting.dom() == Set::<Seq<char>>::empty(),
{
    assert(progress.relaxed().state.waiting.dom() =~= Set::empty());
}

/// Symbols that are ready are taken in the order in which they became known, and what waits for one is
/// tried again in its order.
pub proof fn ready_symbols_are_taken_in_order(
    progress: Progress,
    symbol: Seq<char>,
    rest: Seq<Seq<char>>,
    waiting: Seq<DefinitionView>,
)
    requires
        progress.state.ready == seq![symbol] + rest,
    ensures
        progress.state.waiting.contains_pair(symbol, waiting) ==> progress.stepped() == (Progress {
            names: progress.names,
            state: StateView {
                ready: rest,
                waiting: progress.state.waiting.remove(symbol),
                ..progress.state
            },
        }).placed_all(waiting),
        !progress.state.waiting.contains_key(symbol) ==> progress.stepped() == (Progress {
            names: progress.names,
            state: StateView { ready: rest, ..progress.state },
        }),
{
    assert(progress.state.ready.skip(1) =~= rest);
}

/// What waits is tried again symbol by symbol, all of it and in its order.
pub proof fn waiting_definitions_take_turns(
    waiting: Map<Seq<char>, Seq<DefinitionView>>,
    front: Seq<Seq<char>>,
    back: Seq<Seq<char>>,
    symbol: Seq<char>,
)
    ensures
        in_turn(waiting, Seq::empty()) == Seq::<DefinitionView>::empty(),
        in_turn(waiting, seq![symbol]) == waiting[symbol],
        in_turn(waiting, front + back) == in_turn(waiting, front) + in_turn(waiting, back),
    decreases back.len(),
{
    let none = Seq::<Seq<char>>::empty();
    assert(seq![symbol].drop_last() =~= none);
    reveal_with_fuel(in_turn, 2);
    assert(Seq::<DefinitionView>::empty() + waiting[symbol] =~= waiting[symbol]);
    if back.len() == 0 {
        assert(front + back =~= front);
        assert(in_turn(waiting, front) + Seq::<DefinitionView>::empty() =~= in_turn(
            waiting,
            front,
        ));
    } else {
        waiting_definitions_take_turns(waiting, front, back.drop_last(), symbol);
        assert((front + back).drop_last() =~= front + back.drop_last());
        assert(in_turn(waiting, front + back) =~= in_turn(waiting, front) + in_turn(waiting, back));
    }
}

} // verus!
