//! What holds of the names that definitions give, whatever the definitions are.

use crate::mib::parser::{DefinitionView, ElementView};
use crate::mib::resolver::{
    arcs_from, dot_position, dotted, instance_prefix, lemma_dot_position, numeric_oid, resolve_oid,
    resolve_text, ResolutionView,
};
use crate::mib::state::{
    answers_to, before_definitions, defined_symbol, in_turn, last_answering, lists, qualified,
    resolve_to, symbols_of, ElementResolutionView, Progress, StateView,
};
use crate::mib::table::{oid_less, oid_less_is_total, oid_less_is_transitive, SymbolView};
use crate::text::{decimal, is_decimal_digit, read_unsigned, reading_undoes_rendering};
use vstd::prelude::*;
use vstd::string::*;

pub mod builtins;
pub mod loads;
pub mod meaning;
pub mod modules;
pub mod scans;
pub mod words;

verus! {

/// An object identifier that is not named itself is an instance of its longest prefix that has
/// instances.
pub proof fn instance_is_of_the_longest_prefix(
    names: Map<Seq<u32>, SymbolView>,
    oid: Seq<u32>,
    limit: int,
)
    requires
        limit < oid.len(),
    ensures
        match instance_prefix(names, oid, limit) {
            Some(length) => {
                &&& 0 < length <= limit
                &&& names.contains_key(oid.take(length))
                &&& names[oid.take(length)].prefix_resolves
                &&& forall|longer: int|
                    length < longer <= limit ==> !(names.contains_key(#[trigger] oid.take(longer))
                        && names[oid.take(longer)].prefix_resolves)
            },
            None => forall|length: int|
                0 < length <= limit ==> !(names.contains_key(#[trigger] oid.take(length))
                    && names[oid.take(length)].prefix_resolves),
        },
    decreases limit,
{
    if limit > 0 && !(names.contains_key(oid.take(limit))
        && names[oid.take(limit)].prefix_resolves) {
        instance_is_of_the_longest_prefix(names, oid, limit - 1);
    }
}

/// Dotted text starts with the first arc.
proof fn lemma_dotted_first(arcs: Seq<u32>)
    requires
        arcs.len() > 1,
    ensures
        dotted(arcs) == decimal(arcs[0] as nat) + "."@ + dotted(arcs.drop_first()),
    decreases arcs.len(),
{
    let front = arcs.drop_last();
    let rest = arcs.drop_first();
    let last = decimal(arcs.last() as nat);
    if arcs.len() == 2 {
        assert(dotted(front) == decimal(arcs[0] as nat));
        assert(dotted(rest) == last);
    } else {
        lemma_dotted_first(front);
        assert(rest.drop_last() =~= front.drop_first());
        assert(dotted(rest) == dotted(front.drop_first()) + "."@ + last);
        assert(decimal(arcs[0] as nat) + "."@ + dotted(front.drop_first()) + "."@ + last
            =~= decimal(arcs[0] as nat) + "."@ + (dotted(front.drop_first()) + "."@ + last));
    }
}

proof fn lemma_dot_position_skips(text: Seq<char>, start: int, end: int)
    requires
        0 <= start <= end <= text.len(),
        forall|i: int| start <= i < end ==> is_decimal_digit(#[trigger] text[i]),
        end < text.len() ==> text[end] == '.',
    ensures
        dot_position(text, start) == end,
    decreases end - start,
{
    if start < end {
        assert(is_decimal_digit(text[start]));
        lemma_dot_position_skips(text, start + 1, end);
    }
}

proof fn lemma_arcs_from_dotted(text: Seq<char>, start: int, arcs: Seq<u32>)
    requires
        arcs.len() > 0,
        0 <= start <= text.len(),
        text.skip(start) == dotted(arcs),
    ensures
        arcs_from(text, start) == Some(arcs),
    decreases arcs.len(),
{
    let first = decimal(arcs[0] as nat);
    let end = start + first.len();
    reading_undoes_rendering(arcs[0] as nat, u32::MAX as nat);
    reveal_strlit(".");
    if arcs.len() > 1 {
        lemma_dotted_first(arcs);
    } else {
        assert(dotted(arcs) == first);
    }
    assert(text.skip(start).len() >= first.len());
    assert forall|i: int| start <= i < end implies is_decimal_digit(#[trigger] text[i]) by {
        assert(text[i] == text.skip(start)[i - start]);
        assert(text[i] == first[i - start]);
    }
    assert(text.subrange(start, end) =~= first) by {
        assert forall|i: int| 0 <= i < first.len() implies text.subrange(start, end)[i]
            == first[i] by {
            assert(text.skip(start)[i] == first[i]);
        }
    }
    if arcs.len() > 1 {
        assert(text[end] == text.skip(start)[first.len() as int]);
        lemma_dot_position_skips(text, start, end);
        assert(text.skip(end + 1) =~= dotted(arcs.drop_first())) by {
            let tail = dotted(arcs.drop_first());
            assert forall|i: int| 0 <= i < tail.len() implies text.skip(end + 1)[i] == tail[i] by {
                assert(text.skip(start)[first.len() + 1 + i] == tail[i]);
            }
        }
        lemma_arcs_from_dotted(text, end + 1, arcs.drop_first());
        assert(seq![arcs[0]] + arcs.drop_first() =~= arcs);
    } else {
        lemma_dot_position_skips(text, start, end);
        assert(seq![arcs[0]] =~= arcs);
    }
}

/// The dotted text of an object identifier reads as its arcs, so that it is resolved by them.
pub proof fn dotted_text_reads_as_arcs(names: Map<Seq<u32>, SymbolView>, arcs: Seq<u32>)
    requires
        arcs.len() > 0,
    ensures
        numeric_oid(dotted(arcs)) == Some(arcs),
        resolve_text(names, dotted(arcs)) == resolve_oid(names, arcs),
{
    assert(dotted(arcs).skip(0) =~= dotted(arcs));
    lemma_arcs_from_dotted(dotted(arcs), 0, arcs);
}

/// A text is resolved by the arcs that it reads as, and a text that is no object identifier is not.
pub proof fn texts_are_resolved_by_their_arcs(names: Map<Seq<u32>, SymbolView>, text: Seq<char>)
    ensures
        numeric_oid(text) matches Some(arcs) ==> resolve_text(names, text) == resolve_oid(
            names,
            arcs,
        ),
        numeric_oid(text) is None ==> resolve_text(names, text) is None,
{
}

/// What is known of an object identifier is its symbol's, with the module and the name together.
pub open spec fn is_of_symbol(resolution: ResolutionView, symbol: SymbolView) -> bool {
    &&& resolution.module == symbol.module
    &&& resolution.symbol == symbol.name
    &&& resolution.name == (match symbol.module {
        Some(module) => module + "::"@ + symbol.name,
        None => symbol.name,
    }) + (match resolution.instance {
        Some(instance) => "."@ + instance,
        None => ""@,
    })
}

/// The prefix is named and has instances.
pub open spec fn has_instances(
    names: Map<Seq<u32>, SymbolView>,
    oid: Seq<u32>,
    length: int,
) -> bool {
    names.contains_key(oid.take(length)) && names[oid.take(length)].prefix_resolves
}

/// The symbol is that of the longest prefix with instances, and the instance reads as the arcs behind
/// it, all of them.
pub open spec fn is_instance_of(
    resolution: ResolutionView,
    names: Map<Seq<u32>, SymbolView>,
    oid: Seq<u32>,
    length: int,
) -> bool {
    &&& 0 < length < oid.len()
    &&& has_instances(names, oid, length)
    &&& is_of_symbol(resolution, names[oid.take(length)])
    &&& resolution.instance is Some
    &&& numeric_oid(resolution.instance->0) == Some(oid.skip(length))
    &&& forall|longer: int|
        length < longer < oid.len() ==> !(#[trigger] has_instances(names, oid, longer))
}

/// An object identifier that is named is known by its own symbol. Any other is an instance of its
/// longest prefix that has instances, where there is one, and the arcs of that prefix and of the
/// instance together are the identifier: no arc is lost.
pub proof fn resolutions_tell_the_whole_identifier(
    names: Map<Seq<u32>, SymbolView>,
    oid: Seq<u32>,
)
    ensures
        names.contains_key(oid) ==> {
            &&& resolve_oid(names, oid) is Some
            &&& resolve_oid(names, oid)->0.instance is None
            &&& is_of_symbol(resolve_oid(names, oid)->0, names[oid])
        },
        !names.contains_key(oid) && resolve_oid(names, oid) is Some ==> exists|length: int|
            #[trigger] is_instance_of(resolve_oid(names, oid)->0, names, oid, length),
        resolve_oid(names, oid) is None ==> !names.contains_key(oid) && forall|length: int|
            0 < length < oid.len() ==> !(#[trigger] has_instances(names, oid, length)),
{
    reveal_strlit("");
    let none = Seq::<char>::empty();
    assert(""@ =~= none);
    if names.contains_key(oid) {
        let name = resolve_oid(names, oid)->0.name;
        assert(name + ""@ =~= name);
    } else {
        instance_is_of_the_longest_prefix(names, oid, oid.len() - 1);
        match instance_prefix(names, oid, oid.len() - 1) {
            Some(length) => {
                let resolution = resolve_oid(names, oid)->0;
                dotted_text_reads_as_arcs(names, oid.skip(length));
                let symbol = names[oid.take(length)];
                let base = match symbol.module {
                    Some(module) => module + "::"@ + symbol.name,
                    None => symbol.name,
                };
                assert(base + "."@ + resolution.instance->0 =~= base + ("."@
                    + resolution.instance->0));
                assert forall|longer: int| length < longer < oid.len() implies !(
                #[trigger] has_instances(names, oid, longer)) by {
                    assert(!(names.contains_key(oid.take(longer))
                        && names[oid.take(longer)].prefix_resolves));
                }
                assert(is_instance_of(resolution, names, oid, length));
            },
            None => {
                assert forall|length: int| 0 < length < oid.len() implies !(
                #[trigger] has_instances(names, oid, length)) by {
                    assert(!(names.contains_key(oid.take(length))
                        && names[oid.take(length)].prefix_resolves));
                }
            },
        }
    }
}

/// Two object identifiers that are instances of one prefix and not the same never share an instance.
pub proof fn instances_tell_identifiers_apart(
    names: Map<Seq<u32>, SymbolView>,
    left: Seq<u32>,
    right: Seq<u32>,
    length: int,
)
    requires
        resolve_oid(names, left) is Some,
        resolve_oid(names, right) is Some,
        is_instance_of(resolve_oid(names, left)->0, names, left, length),
        is_instance_of(resolve_oid(names, right)->0, names, right, length),
        left.take(length) == right.take(length),
        left != right,
    ensures
        resolve_oid(names, left)->0.instance != resolve_oid(names, right)->0.instance,
        resolve_oid(names, left)->0.name != resolve_oid(names, right)->0.name,
{
    let a = resolve_oid(names, left)->0;
    let b = resolve_oid(names, right)->0;
    if a.instance == b.instance {
        assert(left =~= left.take(length) + left.skip(length));
        assert(right =~= right.take(length) + right.skip(length));
    }
    let symbol = names[left.take(length)];
    let base = match symbol.module {
        Some(module) => module + "::"@ + symbol.name,
        None => symbol.name,
    };
    reveal_strlit(".");
    if a.name == b.name {
        assert(a.instance->0 =~= a.name.skip(base.len() as int + 1));
        assert(b.instance->0 =~= b.name.skip(base.len() as int + 1));
    }
}

proof fn lemma_dot_position_moves(text: Seq<char>, start: int, index: int)
    requires
        0 <= start <= index,
    ensures
        start <= text.len() ==> dot_position(text, index) == start + dot_position(
            text.skip(start),
            index - start,
        ),
    decreases text.len() - index,
{
    if start <= text.len() && index < text.len() && text[index] != '.' {
        lemma_dot_position_moves(text, start, index + 1);
    }
}

proof fn lemma_arcs_move(text: Seq<char>, start: int, index: int)
    requires
        0 <= start <= index,
        start <= text.len(),
    ensures
        arcs_from(text, index) == arcs_from(text.skip(start), index - start),
    decreases text.len() - index,
{
    if index <= text.len() {
        let end = dot_position(text, index);
        lemma_dot_position(text, index);
        lemma_dot_position_moves(text, start, index);
        assert(text.skip(start).subrange(index - start, end - start) =~= text.subrange(index, end));
        if end < text.len() {
            lemma_arcs_move(text, start, end + 1);
        }
    }
}

/// Dotted text is read arc by arc: each is the number between two dots, and text is read as a whole
/// or not at all.
pub proof fn dotted_text_is_read_arc_by_arc(first: Seq<char>, rest: Seq<char>)
    requires
        !first.contains('.'),
    ensures
        numeric_oid(first) == match read_unsigned(first, u32::MAX as nat) {
            Some(arc) => Some(seq![arc as u32]),
            None => None,
        },
        numeric_oid(first + "."@ + rest) == match (
            read_unsigned(first, u32::MAX as nat),
            numeric_oid(rest),
        ) {
            (Some(arc), Some(arcs)) => Some(seq![arc as u32] + arcs),
            _ => None,
        },
{
    reveal_strlit(".");
    let text = first + "."@ + rest;
    lemma_dot_position_found(first, 0);
    assert(first.subrange(0, first.len() as int) =~= first);
    lemma_dot_position_found(text, 0);
    lemma_dot_position_skips_to(text, 0, first.len() as int);
    assert(text.subrange(0, first.len() as int) =~= first);
    let start = first.len() as int + 1;
    lemma_arcs_move(text, start, start);
    assert(text.skip(start) =~= rest);
}

proof fn lemma_dot_position_found(text: Seq<char>, index: int)
    requires
        0 <= index <= text.len(),
    ensures
        dot_position(text, index) < text.len() ==> text[dot_position(text, index)] == '.',
        !text.contains('.') ==> dot_position(text, index) == text.len(),
    decreases text.len() - index,
{
    if index < text.len() && text[index] != '.' {
        lemma_dot_position_found(text, index + 1);
    }
}

proof fn lemma_dot_position_skips_to(text: Seq<char>, index: int, end: int)
    requires
        0 <= index <= end < text.len(),
        text[end] == '.',
        forall|i: int| index <= i < end ==> #[trigger] text[i] != '.',
    ensures
        dot_position(text, index) == end,
    decreases end - index,
{
    if index < end {
        lemma_dot_position_skips_to(text, index + 1, end);
    }
}

/// Where no symbol is ready any more, going on changes nothing.
proof fn lemma_drained_stays(start: Progress, steps: nat, more: nat)
    requires
        steps <= more,
        start.drained(steps).state.ready.len() == 0,
    ensures
        start.drained(more) == start.drained(steps),
    decreases more,
{
    if steps < more {
        lemma_drained_stays(start, steps, (more - 1) as nat);
    }
}

/// What is left when no symbol is ready any more is determined by what was there before.
pub proof fn draining_has_one_end(start: Progress, left: Progress, right: Progress)
    requires
        start.drains_to(left),
        start.drains_to(right),
    ensures
        left == right,
{
    let left_steps = choose|steps: nat| #[trigger] start.drained(steps) == left;
    let right_steps = choose|steps: nat| #[trigger] start.drained(steps) == right;
    if left_steps <= right_steps {
        lemma_drained_stays(start, left_steps, right_steps);
    } else {
        lemma_drained_stays(start, right_steps, left_steps);
    }
}

proof fn lemma_waiting_is_unknown(
    state: StateView,
    elements: Seq<ElementView>,
    index: int,
    oid: Seq<u32>,
)
    ensures
        state.resolved_from(elements, index, oid) matches ElementResolutionView::Waiting(key)
            ==> !state.symbols.contains_key(key),
    decreases elements.len() - index,
{
    if index < elements.len() {
        match elements[index] {
            ElementView::Number(number) => {
                lemma_waiting_is_unknown(state, elements, index + 1, oid.push(number));
            },
            ElementView::Symbol(symbol) => {
                if let Ok(arcs) = state.referenced(symbol) {
                    lemma_waiting_is_unknown(state, elements, index + 1, arcs);
                }
            },
            ElementView::NamedNumber(name, number) => {
                lemma_waiting_is_unknown(state, elements, index + 1, oid.push(number));
                lemma_waiting_is_unknown(state, elements, index + 1, state.symbols[name]);
                lemma_waiting_is_unknown(
                    state,
                    elements,
                    index + 1,
                    state.symbols[name].push(number),
                );
            },
        }
    }
}

/// A definition waits only for a symbol that is not known.
pub proof fn definitions_wait_for_unknown_symbols(state: StateView, elements: Seq<ElementView>)
    ensures
        state.resolved(elements) matches ElementResolutionView::Waiting(key)
            ==> !state.symbols.contains_key(key),
{
    lemma_waiting_is_unknown(state, elements, 0, Seq::empty());
}

/// Every name stems from the names at the start or from one of the definitions.
pub open spec fn names_stem_from(
    extended: Map<Seq<u32>, SymbolView>,
    names: Map<Seq<u32>, SymbolView>,
    definitions: Seq<DefinitionView>,
) -> bool {
    forall|oid: Seq<u32>| #[trigger]
        extended.contains_key(oid) ==> (names.contains_key(oid) && extended[oid] == names[oid])
            || exists|i: int|
            0 <= i < definitions.len() && defined_symbol(#[trigger] definitions[i])
                == extended[oid]
}

/// Every waiting definition is one of the definitions, and every symbol that is waited for has one.
pub open spec fn waiting_stem_from(
    waiting: Map<Seq<char>, Seq<DefinitionView>>,
    definitions: Seq<DefinitionView>,
) -> bool {
    forall|key: Seq<char>| #[trigger]
        waiting.contains_key(key) ==> waiting[key].len() > 0 && forall|i: int|
            0 <= i < waiting[key].len() ==> definitions.contains(#[trigger] waiting[key][i])
}

spec fn sound(
    progress: Progress,
    names: Map<Seq<u32>, SymbolView>,
    definitions: Seq<DefinitionView>,
) -> bool {
    &&& progress.names.dom().finite()
    &&& names.dom().subset_of(progress.names.dom())
    &&& names_stem_from(progress.names, names, definitions)
    &&& waiting_stem_from(progress.state.waiting, definitions)
    &&& forall|key: Seq<char>| #[trigger]
        progress.state.waiting.contains_key(key) && progress.state.symbols.contains_key(key)
            ==> progress.state.ready.contains(key)
    &&& forall|oid: Seq<u32>, key: Seq<char>|
        #![trigger progress.names.contains_key(oid), progress.state.symbols.contains_key(key)]
        progress.names.contains_key(oid) && answers_to(progress.names[oid], key)
            ==> progress.state.symbols.contains_key(key)
}

proof fn lemma_push_contains<A>(items: Seq<A>, item: A)
    ensures
        items.push(item).contains(item),
        forall|other: A| #[trigger] items.contains(other) ==> items.push(item).contains(other),
{
    assert(items.push(item)[items.len() as int] == item);
    assert forall|other: A| #[trigger] items.contains(other) implies items.push(item).contains(
        other,
    ) by {
        let place = choose|place: int| 0 <= place < items.len() && items[place] == other;
        assert(items.push(item)[place] == other);
    }
}

proof fn lemma_placed_is_sound(
    progress: Progress,
    definition: DefinitionView,
    names: Map<Seq<u32>, SymbolView>,
    definitions: Seq<DefinitionView>,
)
    requires
        sound(progress, names, definitions),
        definitions.contains(definition),
    ensures
        sound(progress.placed(definition), names, definitions),
{
    let after = progress.placed(definition);
    let place = choose|place: int|
        0 <= place < definitions.len() && definitions[place] == definition;
    definitions_wait_for_unknown_symbols(progress.state, definition.elements);
    match progress.state.resolved(definition.elements) {
        ElementResolutionView::Resolved(oid) => {
            let ready = progress.state.ready.push(definition.name);
            lemma_push_contains(progress.state.ready, definition.name);
            if let Some(module) = definition.module {
                lemma_push_contains(ready, qualified(module, definition.name));
            }
            assert forall|other: Seq<u32>| #[trigger] after.names.contains_key(other) implies (
            names.contains_key(other) && after.names[other] == names[other]) || exists|i: int|
                0 <= i < definitions.len() && defined_symbol(#[trigger] definitions[i])
                    == after.names[other] by {
                if other == oid {
                    assert(defined_symbol(definitions[place]) == after.names[other]);
                } else {
                    assert(progress.names.contains_key(other));
                }
            }
            assert forall|key: Seq<char>| #[trigger]
                after.state.waiting.contains_key(key) && after.state.symbols.contains_key(
                    key,
                ) implies after.state.ready.contains(key) by {
                assert(progress.state.waiting.contains_key(key));
            }
            assert forall|other: Seq<u32>, key: Seq<char>|
                #![trigger after.names.contains_key(other), after.state.symbols.contains_key(key)]
                after.names.contains_key(other) && answers_to(
                    after.names[other],
                    key,
                ) implies after.state.symbols.contains_key(key) by {
                if other != oid {
                    assert(progress.names.contains_key(other));
                    assert(progress.state.symbols.contains_key(key));
                }
            }
        },
        ElementResolutionView::Waiting(key) => {
            let bucket = if progress.state.waiting.contains_key(key) {
                progress.state.waiting[key]
            } else {
                Seq::empty()
            };
            assert forall|other: Seq<char>| #[trigger]
                after.state.waiting.contains_key(other) implies after.state.waiting[other].len() > 0
                && forall|i: int|
                0 <= i < after.state.waiting[other].len() ==> definitions.contains(
                    #[trigger] after.state.waiting[other][i],
                ) by {
                if other == key {
                    assert forall|i: int|
                        0 <= i < after.state.waiting[other].len() implies definitions.contains(
                        #[trigger] after.state.waiting[other][i],
                    ) by {
                        if i < bucket.len() {
                            assert(after.state.waiting[other][i] == bucket[i]);
                        }
                    }
                } else {
                    assert(progress.state.waiting.contains_key(other));
                }
            }
        },
        ElementResolutionView::Invalid => {},
    }
}

spec fn all_among(items: Seq<DefinitionView>, definitions: Seq<DefinitionView>) -> bool {
    forall|i: int| 0 <= i < items.len() ==> definitions.contains(#[trigger] items[i])
}

proof fn lemma_placed_all_is_sound(
    progress: Progress,
    items: Seq<DefinitionView>,
    names: Map<Seq<u32>, SymbolView>,
    definitions: Seq<DefinitionView>,
)
    requires
        sound(progress, names, definitions),
        all_among(items, definitions),
    ensures
        sound(progress.placed_all(items), names, definitions),
    decreases items.len(),
{
    if items.len() > 0 {
        lemma_placed_all_is_sound(progress, items.drop_last(), names, definitions);
        lemma_placed_is_sound(
            progress.placed_all(items.drop_last()),
            items.last(),
            names,
            definitions,
        );
    }
}

proof fn lemma_stepped_is_sound(
    progress: Progress,
    names: Map<Seq<u32>, SymbolView>,
    definitions: Seq<DefinitionView>,
)
    requires
        sound(progress, names, definitions),
        progress.state.ready.len() > 0,
    ensures
        sound(progress.stepped(), names, definitions),
{
    let symbol = progress.state.ready[0];
    let rest = progress.state.ready.skip(1);
    assert forall|key: Seq<char>| key != symbol && #[trigger]
        progress.state.ready.contains(key) implies rest.contains(key) by {
        let place = choose|place: int|
            0 <= place < progress.state.ready.len() && progress.state.ready[place] == key;
        assert(rest[place - 1] == key);
    }
    let state = StateView { ready: rest, ..progress.state };
    if state.waiting.contains_key(symbol) {
        let between = Progress {
            names: progress.names,
            state: StateView { waiting: state.waiting.remove(symbol), ..state },
        };
        assert(sound(between, names, definitions)) by {
            assert forall|key: Seq<char>| #[trigger]
                between.state.waiting.contains_key(key) implies between.state.waiting[key].len() > 0
                && forall|i: int|
                0 <= i < between.state.waiting[key].len() ==> definitions.contains(
                    #[trigger] between.state.waiting[key][i],
                ) by {
                assert(progress.state.waiting.contains_key(key));
            }
            assert forall|key: Seq<char>| #[trigger]
                between.state.waiting.contains_key(key) && between.state.symbols.contains_key(
                    key,
                ) implies between.state.ready.contains(key) by {
                assert(progress.state.waiting.contains_key(key));
            }
            assert forall|oid: Seq<u32>, key: Seq<char>|
                #![trigger between.names.contains_key(oid), between.state.symbols.contains_key(key)]
                between.names.contains_key(oid) && answers_to(
                    between.names[oid],
                    key,
                ) implies between.state.symbols.contains_key(key) by {
                assert(progress.names.contains_key(oid));
                assert(progress.state.symbols.contains_key(key));
            }
        }
        lemma_placed_all_is_sound(between, state.waiting[symbol], names, definitions);
    } else {
        let after = progress.stepped();
        assert forall|key: Seq<char>| #[trigger]
            after.state.waiting.contains_key(key) && after.state.symbols.contains_key(
                key,
            ) implies after.state.ready.contains(key) by {
            assert(progress.state.waiting.contains_key(key));
        }
        assert forall|oid: Seq<u32>, key: Seq<char>|
            #![trigger after.names.contains_key(oid), after.state.symbols.contains_key(key)]
            after.names.contains_key(oid) && answers_to(
                after.names[oid],
                key,
            ) implies after.state.symbols.contains_key(key) by {
            assert(progress.names.contains_key(oid));
            assert(progress.state.symbols.contains_key(key));
        }
    }
}

proof fn lemma_drained_is_sound(
    progress: Progress,
    steps: nat,
    names: Map<Seq<u32>, SymbolView>,
    definitions: Seq<DefinitionView>,
)
    requires
        sound(progress, names, definitions),
    ensures
        sound(progress.drained(steps), names, definitions),
    decreases steps,
{
    if steps > 0 {
        lemma_drained_is_sound(progress, (steps - 1) as nat, names, definitions);
        let before = progress.drained((steps - 1) as nat);
        if before.state.ready.len() > 0 {
            lemma_stepped_is_sound(before, names, definitions);
        }
    }
}

/// Of finitely many object identifiers one is the last.
proof fn lemma_last_exists(oids: Set<Seq<u32>>) -> (last: Seq<u32>)
    requires
        oids.finite(),
        oids.len() > 0,
    ensures
        oids.contains(last),
        forall|other: Seq<u32>| #[trigger]
            oids.contains(other) ==> other == last || oid_less(other, last),
    decreases oids.len(),
{
    let some = oids.choose();
    let rest = oids.remove(some);
    if rest.len() == 0 {
        assert forall|other: Seq<u32>| #[trigger] oids.contains(other) implies other == some by {
            if other != some {
                assert(rest.contains(other));
                assert(rest =~= Set::empty());
            }
        }
        some
    } else {
        let last = lemma_last_exists(rest);
        oid_less_is_total(last, some);
        if oid_less(last, some) {
            assert forall|other: Seq<u32>| #[trigger] oids.contains(other) implies other == some
                || oid_less(other, some) by {
                if other != some {
                    assert(rest.contains(other));
                    if other != last {
                        oid_less_is_transitive(other, last, some);
                    }
                }
            }
            some
        } else {
            assert forall|other: Seq<u32>| #[trigger] oids.contains(other) implies other == last
                || oid_less(other, last) by {
                if other != some {
                    assert(rest.contains(other));
                }
            }
            last
        }
    }
}

/// Whatever a named object identifier answers to is a known symbol.
proof fn lemma_names_are_symbols(
    names: Map<Seq<u32>, SymbolView>,
    oid: Seq<u32>,
    key: Seq<char>,
)
    requires
        names.dom().finite(),
        names.contains_key(oid),
        answers_to(names[oid], key),
    ensures
        symbols_of(names).contains_key(key),
{
    let answering = names.dom().filter(|other: Seq<u32>| answers_to(names[other], key));
    names.dom().lemma_len_filter(|other: Seq<u32>| answers_to(names[other], key));
    assert(answering.contains(oid));
    assert(answering.len() > 0) by {
        if answering.len() == 0 {
            assert(answering =~= Set::empty());
        }
    }
    let last = lemma_last_exists(answering);
    assert forall|other: Seq<u32>| #[trigger]
        names.contains_key(other) && answers_to(names[other], key) implies other == last
        || oid_less(other, last) by {
        assert(answering.contains(other));
    }
    assert(last_answering(names, key, last));
}

proof fn lemma_in_turn_among(
    waiting: Map<Seq<char>, Seq<DefinitionView>>,
    order: Seq<Seq<char>>,
    definitions: Seq<DefinitionView>,
)
    requires
        waiting_stem_from(waiting, definitions),
        forall|i: int| 0 <= i < order.len() ==> waiting.contains_key(#[trigger] order[i]),
    ensures
        all_among(in_turn(waiting, order), definitions),
    decreases order.len(),
{
    if order.len() > 0 {
        let front = order.drop_last();
        lemma_in_turn_among(waiting, front, definitions);
        let turned = in_turn(waiting, order);
        let bucket = waiting[order.last()];
        assert(waiting.contains_key(order[order.len() - 1]));
        assert forall|i: int| 0 <= i < turned.len() implies definitions.contains(
            #[trigger] turned[i],
        ) by {
            let split = in_turn(waiting, front).len();
            if i < split {
                assert(turned[i] == in_turn(waiting, front)[i]);
            } else {
                assert(turned[i] == bucket[i - split]);
            }
        }
    }
}

proof fn lemma_listed_are_waiting(
    waiting: Map<Seq<char>, Seq<DefinitionView>>,
    order: Seq<Seq<char>>,
)
    requires
        lists(order, waiting),
    ensures
        forall|i: int| 0 <= i < order.len() ==> waiting.contains_key(#[trigger] order[i]),
{
    assert forall|i: int| 0 <= i < order.len() implies waiting.contains_key(#[trigger] order[i]) by {
        assert(order.to_set().contains(order[i]));
    }
}

proof fn lemma_relaxed_is_sound(
    progress: Progress,
    names: Map<Seq<u32>, SymbolView>,
    definitions: Seq<DefinitionView>,
)
    requires
        sound(progress, names, definitions),
    ensures
        sound(progress.relaxed(), names, definitions),
{
    let after = progress.relaxed();
    assert forall|oid: Seq<u32>, key: Seq<char>|
        #![trigger after.names.contains_key(oid), after.state.symbols.contains_key(key)]
        after.names.contains_key(oid) && answers_to(
            after.names[oid],
            key,
        ) implies after.state.symbols.contains_key(key) by {
        assert(progress.names.contains_key(oid));
        assert(progress.state.symbols.contains_key(key));
    }
}

proof fn lemma_outcome_is_sound(
    names: Map<Seq<u32>, SymbolView>,
    definitions: Seq<DefinitionView>,
    extended: Map<Seq<u32>, SymbolView>,
    unresolved: Map<Seq<char>, Seq<DefinitionView>>,
) -> (end: Progress)
    requires
        names.dom().finite(),
        resolve_to(names, definitions, extended, unresolved),
    ensures
        sound(end, names, definitions),
        end.names == extended,
        end.state.waiting == unresolved,
        end.state.ready.len() == 0,
{
    let start = before_definitions(names, definitions);
    assert(sound(start, names, definitions)) by {
        assert forall|oid: Seq<u32>, key: Seq<char>|
            #![trigger start.names.contains_key(oid), start.state.symbols.contains_key(key)]
            start.names.contains_key(oid) && answers_to(
                start.names[oid],
                key,
            ) implies start.state.symbols.contains_key(key) by {
            lemma_names_are_symbols(names, oid, key);
        }
    }
    let (middle, order, end) = choose|middle: Progress, order: Seq<Seq<char>>, end: Progress|
        {
            &&& #[trigger] start.placed_all(definitions).drains_to(middle)
            &&& #[trigger] lists(order, middle.state.waiting)
            &&& #[trigger] middle.relaxed().placed_all(
                in_turn(middle.state.waiting, order),
            ).drains_to(end)
            &&& extended == end.names
            &&& unresolved == end.state.waiting
        };
    assert(all_among(definitions, definitions));
    lemma_placed_all_is_sound(start, definitions, names, definitions);
    let steps = choose|steps: nat| #[trigger]
        start.placed_all(definitions).drained(steps) == middle;
    lemma_drained_is_sound(start.placed_all(definitions), steps, names, definitions);
    lemma_relaxed_is_sound(middle, names, definitions);
    lemma_listed_are_waiting(middle.state.waiting, order);
    let again = in_turn(middle.state.waiting, order);
    lemma_in_turn_among(middle.state.waiting, order, definitions);
    lemma_placed_all_is_sound(middle.relaxed(), again, names, definitions);
    let more = choose|steps: nat| #[trigger]
        middle.relaxed().placed_all(again).drained(steps) == end;
    lemma_drained_is_sound(middle.relaxed().placed_all(again), more, names, definitions);
    end
}

/// An object identifier that is named stays named, whatever definitions come.
pub proof fn names_are_kept(
    names: Map<Seq<u32>, SymbolView>,
    definitions: Seq<DefinitionView>,
    extended: Map<Seq<u32>, SymbolView>,
    unresolved: Map<Seq<char>, Seq<DefinitionView>>,
)
    requires
        names.dom().finite(),
        resolve_to(names, definitions, extended, unresolved),
    ensures
        names.dom().subset_of(extended.dom()),
        extended.dom().finite(),
{
    let _ = lemma_outcome_is_sound(names, definitions, extended, unresolved);
}

/// No name is made up: each was there before or is that of a definition.
pub proof fn names_come_from_definitions(
    names: Map<Seq<u32>, SymbolView>,
    definitions: Seq<DefinitionView>,
    extended: Map<Seq<u32>, SymbolView>,
    unresolved: Map<Seq<char>, Seq<DefinitionView>>,
)
    requires
        names.dom().finite(),
        resolve_to(names, definitions, extended, unresolved),
    ensures
        names_stem_from(extended, names, definitions),
{
    let _ = lemma_outcome_is_sound(names, definitions, extended, unresolved);
}

/// What is unresolved in the end was among the definitions, and waits for a symbol that none of the
/// names answers to.
pub proof fn unresolved_symbols_are_unknown(
    names: Map<Seq<u32>, SymbolView>,
    definitions: Seq<DefinitionView>,
    extended: Map<Seq<u32>, SymbolView>,
    unresolved: Map<Seq<char>, Seq<DefinitionView>>,
)
    requires
        names.dom().finite(),
        resolve_to(names, definitions, extended, unresolved),
    ensures
        waiting_stem_from(unresolved, definitions),
        forall|key: Seq<char>, oid: Seq<u32>|
            #![trigger unresolved.contains_key(key), extended.contains_key(oid)]
            unresolved.contains_key(key) && extended.contains_key(oid) ==> !answers_to(
                extended[oid],
                key,
            ),
{
    let end = lemma_outcome_is_sound(names, definitions, extended, unresolved);
    assert forall|key: Seq<char>, oid: Seq<u32>|
        #![trigger unresolved.contains_key(key), extended.contains_key(oid)]
        unresolved.contains_key(key) && extended.contains_key(oid) implies !answers_to(
        extended[oid],
        key,
    ) by {
        if answers_to(extended[oid], key) {
            assert(end.names.contains_key(oid));
            assert(end.state.symbols.contains_key(key));
            assert(end.state.waiting.contains_key(key));
        }
    }
}

/// The definition waits for some symbol.
pub open spec fn waits(
    definition: DefinitionView,
    waiting: Map<Seq<char>, Seq<DefinitionView>>,
) -> bool {
    exists|key: Seq<char>| #[trigger]
        waiting.contains_key(key) && waiting[key].contains(definition)
}

/// The definition resolves, in the light of some symbols, to an object identifier that is named.
pub open spec fn is_placed(
    definition: DefinitionView,
    names: Map<Seq<u32>, SymbolView>,
) -> bool {
    exists|state: StateView, oid: Seq<u32>| #[trigger]
        state.resolved(definition.elements) == ElementResolutionView::Resolved(oid) && #[trigger]
        names.contains_key(oid)
}

/// The definition has, in the light of some symbols, no valid value.
pub open spec fn is_invalid(definition: DefinitionView) -> bool {
    exists|state: StateView| #[trigger]
        state.resolved(definition.elements) == ElementResolutionView::Invalid
}

/// The definition is named, waits or has been found invalid.
pub open spec fn is_accounted_for(
    definition: DefinitionView,
    names: Map<Seq<u32>, SymbolView>,
    waiting: Map<Seq<char>, Seq<DefinitionView>>,
) -> bool {
    waits(definition, waiting) || is_placed(definition, names) || is_invalid(definition)
}

spec fn accounts(progress: Progress, definition: DefinitionView) -> bool {
    is_accounted_for(definition, progress.names, progress.state.waiting)
}

proof fn lemma_placed_accounts(
    progress: Progress,
    placed: DefinitionView,
    definition: DefinitionView,
)
    requires
        accounts(progress, definition) || definition == placed,
    ensures
        accounts(progress.placed(placed), definition),
{
    let after = progress.placed(placed);
    match progress.state.resolved(placed.elements) {
        ElementResolutionView::Resolved(oid) => {
            if definition == placed {
                assert(progress.state.resolved(placed.elements) == ElementResolutionView::Resolved(
                    oid,
                ) && after.names.contains_key(oid));
            } else if is_placed(definition, progress.names) {
                let (state, other) = choose|state: StateView, other: Seq<u32>| #[trigger]
                    state.resolved(definition.elements) == ElementResolutionView::Resolved(other)
                        && #[trigger] progress.names.contains_key(other);
                assert(after.names.contains_key(other));
            }
        },
        ElementResolutionView::Waiting(key) => {
            let bucket = if progress.state.waiting.contains_key(key) {
                progress.state.waiting[key]
            } else {
                Seq::empty()
            };
            lemma_push_contains(bucket, placed);
            assert(after.state.waiting.contains_key(key));
            if definition != placed && waits(definition, progress.state.waiting) {
                let other = choose|other: Seq<char>| #[trigger]
                    progress.state.waiting.contains_key(other)
                        && progress.state.waiting[other].contains(definition);
                assert(after.state.waiting.contains_key(other));
                assert(after.state.waiting[other].contains(definition));
            }
        },
        ElementResolutionView::Invalid => {},
    }
}

proof fn lemma_placed_all_accounts(
    progress: Progress,
    items: Seq<DefinitionView>,
    definition: DefinitionView,
)
    requires
        accounts(progress, definition) || items.contains(definition),
    ensures
        accounts(progress.placed_all(items), definition),
    decreases items.len(),
{
    if items.len() > 0 {
        let front = items.drop_last();
        if definition != items.last() {
            if items.contains(definition) {
                let place = choose|place: int|
                    0 <= place < items.len() && items[place] == definition;
                assert(front[place] == definition);
            }
            lemma_placed_all_accounts(progress, front, definition);
        }
        lemma_placed_accounts(progress.placed_all(front), items.last(), definition);
    }
}

proof fn lemma_drained_accounts(progress: Progress, steps: nat, definition: DefinitionView)
    requires
        accounts(progress, definition),
    ensures
        accounts(progress.drained(steps), definition),
    decreases steps,
{
    if steps > 0 {
        lemma_drained_accounts(progress, (steps - 1) as nat, definition);
        let before = progress.drained((steps - 1) as nat);
        if before.state.ready.len() > 0 {
            let symbol = before.state.ready[0];
            let state = StateView { ready: before.state.ready.skip(1), ..before.state };
            if state.waiting.contains_key(symbol) {
                let between = Progress {
                    names: before.names,
                    state: StateView { waiting: state.waiting.remove(symbol), ..state },
                };
                if waits(definition, before.state.waiting) && !state.waiting[symbol].contains(
                    definition,
                ) {
                    let key = choose|key: Seq<char>| #[trigger]
                        before.state.waiting.contains_key(key)
                            && before.state.waiting[key].contains(definition);
                    assert(between.state.waiting.contains_key(key));
                    assert(between.state.waiting[key].contains(definition));
                }
                lemma_placed_all_accounts(between, state.waiting[symbol], definition);
            }
        }
    }
}

proof fn lemma_in_turn_contains(
    waiting: Map<Seq<char>, Seq<DefinitionView>>,
    order: Seq<Seq<char>>,
    place: int,
    definition: DefinitionView,
)
    requires
        0 <= place < order.len(),
        waiting[order[place]].contains(definition),
    ensures
        in_turn(waiting, order).contains(definition),
    decreases order.len(),
{
    let front = order.drop_last();
    let before = in_turn(waiting, front);
    let bucket = waiting[order.last()];
    if place < front.len() {
        assert(front[place] == order[place]);
        lemma_in_turn_contains(waiting, front, place, definition);
        let at = choose|at: int| 0 <= at < before.len() && before[at] == definition;
        assert(in_turn(waiting, order)[at] == definition);
    } else {
        let at = choose|at: int| 0 <= at < bucket.len() && bucket[at] == definition;
        assert(in_turn(waiting, order)[before.len() + at] == definition);
    }
}

/// No definition is lost: each resolves to an object identifier that is named in the end, is
/// unresolved, or has no valid value.
pub proof fn definitions_are_accounted_for(
    names: Map<Seq<u32>, SymbolView>,
    definitions: Seq<DefinitionView>,
    extended: Map<Seq<u32>, SymbolView>,
    unresolved: Map<Seq<char>, Seq<DefinitionView>>,
    definition: DefinitionView,
)
    requires
        resolve_to(names, definitions, extended, unresolved),
        definitions.contains(definition),
    ensures
        is_accounted_for(definition, extended, unresolved),
{
    let start = before_definitions(names, definitions);
    let (middle, order, end) = choose|middle: Progress, order: Seq<Seq<char>>, end: Progress|
        {
            &&& #[trigger] start.placed_all(definitions).drains_to(middle)
            &&& #[trigger] lists(order, middle.state.waiting)
            &&& #[trigger] middle.relaxed().placed_all(
                in_turn(middle.state.waiting, order),
            ).drains_to(end)
            &&& extended == end.names
            &&& unresolved == end.state.waiting
        };
    lemma_placed_all_accounts(start, definitions, definition);
    let steps = choose|steps: nat| #[trigger]
        start.placed_all(definitions).drained(steps) == middle;
    lemma_drained_accounts(start.placed_all(definitions), steps, definition);
    let again = in_turn(middle.state.waiting, order);
    if waits(definition, middle.state.waiting) {
        let key = choose|key: Seq<char>| #[trigger]
            middle.state.waiting.contains_key(key) && middle.state.waiting[key].contains(
                definition,
            );
        assert(order.to_set().contains(key));
        let place = choose|place: int| 0 <= place < order.len() && order[place] == key;
        lemma_in_turn_contains(middle.state.waiting, order, place, definition);
    }
    lemma_placed_all_accounts(middle.relaxed(), again, definition);
    let more = choose|steps: nat| #[trigger]
        middle.relaxed().placed_all(again).drained(steps) == end;
    lemma_drained_accounts(middle.relaxed().placed_all(again), more, definition);
}

} // verus!
