//! What holds of the definitions that are left unresolved, whatever the definitions are.

use crate::mib::parser::{DefinitionView, ElementView};
use crate::mib::state::{
    before_definitions, in_turn, lists, resolve_to, ElementResolutionView, Progress, StateView,
};
use crate::mib::table::SymbolView;
use vstd::prelude::*;
use vstd::seq_lib::lemma_multiset_commutative;

verus! {

/// How often a definition occurs.
pub open spec fn occurrences(definitions: Seq<DefinitionView>, definition: DefinitionView) -> nat {
    definitions.to_multiset().count(definition)
}

/// How often a definition waits for the symbols of `order`.
spec fn tally(
    waiting: Map<Seq<char>, Seq<DefinitionView>>,
    order: Seq<Seq<char>>,
    definition: DefinitionView,
) -> nat {
    occurrences(in_turn(waiting, order), definition)
}

proof fn lemma_occurrences_push(
    definitions: Seq<DefinitionView>,
    pushed: DefinitionView,
    definition: DefinitionView,
)
    ensures
        occurrences(definitions.push(pushed), definition) == occurrences(definitions, definition)
            + if pushed == definition {
            1nat
        } else {
            0nat
        },
{
    broadcast use vstd::seq_lib::group_to_multiset_ensures;

}

proof fn lemma_tally_push(
    waiting: Map<Seq<char>, Seq<DefinitionView>>,
    order: Seq<Seq<char>>,
    key: Seq<char>,
    definition: DefinitionView,
)
    ensures
        tally(waiting, order.push(key), definition) == tally(waiting, order, definition)
            + occurrences(waiting[key], definition),
{
    assert(order.push(key).drop_last() =~= order);
    lemma_multiset_commutative(in_turn(waiting, order), waiting[key]);
}

/// Only what waits for the symbols of `order` counts.
proof fn lemma_tally_agrees(
    left: Map<Seq<char>, Seq<DefinitionView>>,
    right: Map<Seq<char>, Seq<DefinitionView>>,
    order: Seq<Seq<char>>,
    definition: DefinitionView,
)
    requires
        forall|i: int| 0 <= i < order.len() ==> left[#[trigger] order[i]] == right[order[i]],
    ensures
        tally(left, order, definition) == tally(right, order, definition),
    decreases order.len(),
{
    if order.len() > 0 {
        let front = order.drop_last();
        let last = order[order.len() - 1];
        assert forall|i: int| 0 <= i < front.len() implies left[#[trigger] front[i]]
            == right[front[i]] by {
            assert(front[i] == order[i]);
        }
        lemma_tally_agrees(left, right, front, definition);
        assert(order =~= front.push(last));
        lemma_tally_push(left, front, last, definition);
        lemma_tally_push(right, front, last, definition);
    } else {
        assert(in_turn(left, order) =~= in_turn(right, order));
    }
}

proof fn lemma_tally_remove(
    waiting: Map<Seq<char>, Seq<DefinitionView>>,
    order: Seq<Seq<char>>,
    at: int,
    definition: DefinitionView,
)
    requires
        0 <= at < order.len(),
    ensures
        tally(waiting, order, definition) == tally(waiting, order.remove(at), definition)
            + occurrences(waiting[order[at]], definition),
    decreases order.len(),
{
    let front = order.drop_last();
    let last = order[order.len() - 1];
    assert(order =~= front.push(last));
    lemma_tally_push(waiting, front, last, definition);
    if at < order.len() - 1 {
        lemma_tally_remove(waiting, front, at, definition);
        assert(order.remove(at) =~= front.remove(at).push(last));
        lemma_tally_push(waiting, front.remove(at), last, definition);
    } else {
        assert(order.remove(at) =~= front);
    }
}

/// Removing a symbol from a listing lists the others.
proof fn lemma_lists_remove(
    order: Seq<Seq<char>>,
    waiting: Map<Seq<char>, Seq<DefinitionView>>,
    at: int,
)
    requires
        lists(order, waiting),
        0 <= at < order.len(),
    ensures
        lists(order.remove(at), waiting.remove(order[at])),
{
    let key = order[at];
    let rest = order.remove(at);
    assert(rest.no_duplicates());
    assert forall|other: Seq<char>| #[trigger] rest.to_set().contains(other) implies waiting.remove(
        key,
    ).dom().contains(other) by {
        let i = choose|i: int| 0 <= i < rest.len() && rest[i] == other;
        let j = if i < at {
            i
        } else {
            i + 1
        };
        assert(order[j] == other);
        assert(order.to_set().contains(other));
    }
    assert forall|other: Seq<char>| #[trigger]
        waiting.remove(key).dom().contains(other) implies rest.to_set().contains(other) by {
        assert(order.to_set().contains(other));
        let j = choose|j: int| 0 <= j < order.len() && order[j] == other;
        let i = if j < at {
            j
        } else {
            j - 1
        };
        assert(rest[i] == other);
    }
    assert(rest.to_set() =~= waiting.remove(key).dom());
}

/// How often a definition waits does not depend on the order of the symbols.
proof fn lemma_any_order(
    waiting: Map<Seq<char>, Seq<DefinitionView>>,
    left: Seq<Seq<char>>,
    right: Seq<Seq<char>>,
    definition: DefinitionView,
)
    requires
        lists(left, waiting),
        lists(right, waiting),
    ensures
        tally(waiting, left, definition) == tally(waiting, right, definition),
    decreases left.len(),
{
    if left.len() > 0 {
        let last = left.len() - 1;
        let key = left[last];
        assert(left.to_set().contains(key));
        assert(right.to_set().contains(key));
        let at = choose|at: int| 0 <= at < right.len() && right[at] == key;
        let rest = waiting.remove(key);
        lemma_tally_remove(waiting, left, last, definition);
        lemma_tally_remove(waiting, right, at, definition);
        lemma_lists_remove(left, waiting, last);
        lemma_lists_remove(right, waiting, at);
        lemma_any_order(rest, left.remove(last), right.remove(at), definition);
        lemma_rest_agrees(waiting, left.remove(last), key, definition);
        lemma_rest_agrees(waiting, right.remove(at), key, definition);
    } else {
        assert(right.len() == 0) by {
            if right.len() > 0 {
                assert(right.to_set().contains(right[0]));
                assert(left.to_set().contains(right[0]));
            }
        }
        assert(left =~= right);
    }
}

proof fn lemma_rest_agrees(
    waiting: Map<Seq<char>, Seq<DefinitionView>>,
    order: Seq<Seq<char>>,
    key: Seq<char>,
    definition: DefinitionView,
)
    requires
        lists(order, waiting.remove(key)),
    ensures
        tally(waiting.remove(key), order, definition) == tally(waiting, order, definition),
{
    assert forall|i: int| 0 <= i < order.len() implies waiting.remove(key)[#[trigger] order[i]]
        == waiting[order[i]] by {
        assert(order.to_set().contains(order[i]));
    }
    lemma_tally_agrees(waiting.remove(key), waiting, order, definition);
}

/// The definition waits at most so often.
spec fn waits_at_most(
    waiting: Map<Seq<char>, Seq<DefinitionView>>,
    definition: DefinitionView,
    limit: nat,
) -> bool {
    exists|order: Seq<Seq<char>>| #[trigger]
        lists(order, waiting) && tally(waiting, order, definition) <= limit
}

proof fn lemma_placed_waits(
    progress: Progress,
    placed: DefinitionView,
    definition: DefinitionView,
    limit: nat,
)
    requires
        waits_at_most(progress.state.waiting, definition, limit),
    ensures
        waits_at_most(
            progress.placed(placed).state.waiting,
            definition,
            limit + if placed == definition {
                1nat
            } else {
                0nat
            },
        ),
{
    let waiting = progress.state.waiting;
    let after = progress.placed(placed).state.waiting;
    let order = choose|order: Seq<Seq<char>>| #[trigger]
        lists(order, waiting) && tally(waiting, order, definition) <= limit;
    match progress.state.resolved(placed.elements) {
        ElementResolutionView::Waiting(key) => {
            if waiting.contains_key(key) {
                assert(order.to_set().contains(key));
                let at = choose|at: int| 0 <= at < order.len() && order[at] == key;
                assert(after.dom() =~= waiting.dom());
                assert(lists(order, after));
                lemma_tally_remove(waiting, order, at, definition);
                lemma_tally_remove(after, order, at, definition);
                lemma_lists_remove(order, waiting, at);
                lemma_lists_remove(order, after, at);
                lemma_rest_agrees(waiting, order.remove(at), key, definition);
                lemma_rest_agrees(after, order.remove(at), key, definition);
                assert(after.remove(key) =~= waiting.remove(key));
                lemma_occurrences_push(waiting[key], placed, definition);
            } else {
                let longer = order.push(key);
                assert forall|i: int| 0 <= i < order.len() implies (#[trigger] order[i]) != key by {
                    assert(order.to_set().contains(order[i]));
                }
                assert(longer.no_duplicates());
                assert(longer.to_set() =~= after.dom()) by {
                    assert forall|other: Seq<char>| #[trigger]
                        after.dom().contains(other) implies longer.to_set().contains(other) by {
                        if other == key {
                            assert(longer[order.len() as int] == key);
                        } else {
                            assert(order.to_set().contains(other));
                            let i = choose|i: int| 0 <= i < order.len() && order[i] == other;
                            assert(longer[i] == other);
                        }
                    }
                    assert forall|other: Seq<char>| #[trigger]
                        longer.to_set().contains(other) implies after.dom().contains(other) by {
                        let i = choose|i: int| 0 <= i < longer.len() && longer[i] == other;
                        if i < order.len() {
                            assert(order[i] == other);
                            assert(order.to_set().contains(other));
                        }
                    }
                }
                lemma_tally_push(after, order, key, definition);
                assert forall|i: int| 0 <= i < order.len() implies after[#[trigger] order[i]]
                    == waiting[order[i]] by {}
                lemma_tally_agrees(after, waiting, order, definition);
                lemma_occurrences_push(Seq::empty(), placed, definition);
                assert(occurrences(Seq::empty(), definition) == 0) by {
                    broadcast use vstd::seq_lib::group_to_multiset_ensures;

                }
                assert(lists(longer, after));
            }
        },
        _ => {},
    }
}

proof fn lemma_placed_all_waits(
    progress: Progress,
    items: Seq<DefinitionView>,
    definition: DefinitionView,
    limit: nat,
)
    requires
        waits_at_most(progress.state.waiting, definition, limit),
    ensures
        waits_at_most(
            progress.placed_all(items).state.waiting,
            definition,
            limit + occurrences(items, definition),
        ),
    decreases items.len(),
{
    broadcast use vstd::seq_lib::group_to_multiset_ensures;

    if items.len() > 0 {
        let front = items.drop_last();
        lemma_placed_all_waits(progress, front, definition, limit);
        lemma_placed_waits(
            progress.placed_all(front),
            items.last(),
            definition,
            limit + occurrences(front, definition),
        );
        assert(items =~= front.push(items.last()));
        lemma_occurrences_push(front, items.last(), definition);
    }
}

proof fn lemma_drained_waits(
    progress: Progress,
    steps: nat,
    definition: DefinitionView,
    limit: nat,
)
    requires
        waits_at_most(progress.state.waiting, definition, limit),
    ensures
        waits_at_most(progress.drained(steps).state.waiting, definition, limit),
    decreases steps,
{
    if steps > 0 {
        lemma_drained_waits(progress, (steps - 1) as nat, definition, limit);
        let before = progress.drained((steps - 1) as nat);
        if before.state.ready.len() > 0 {
            let waiting = before.state.waiting;
            let symbol = before.state.ready[0];
            if waiting.contains_key(symbol) {
                let order = choose|order: Seq<Seq<char>>| #[trigger]
                    lists(order, waiting) && tally(waiting, order, definition) <= limit;
                assert(order.to_set().contains(symbol));
                let at = choose|at: int| 0 <= at < order.len() && order[at] == symbol;
                lemma_tally_remove(waiting, order, at, definition);
                lemma_lists_remove(order, waiting, at);
                lemma_rest_agrees(waiting, order.remove(at), symbol, definition);
                let left = (limit - occurrences(waiting[symbol], definition)) as nat;
                let between = Progress {
                    names: before.names,
                    state: StateView {
                        waiting: waiting.remove(symbol),
                        ready: before.state.ready.skip(1),
                        ..before.state
                    },
                };
                assert(waits_at_most(between.state.waiting, definition, left));
                lemma_placed_all_waits(between, waiting[symbol], definition, left);
                assert(before.stepped() == between.placed_all(waiting[symbol]));
            }
        }
    }
}

proof fn lemma_nothing_waits(definition: DefinitionView)
    ensures
        waits_at_most(Map::empty(), definition, 0),
{
    broadcast use vstd::seq_lib::group_to_multiset_ensures;

    let none = Map::<Seq<char>, Seq<DefinitionView>>::empty();
    let order = Seq::<Seq<char>>::empty();
    assert(order.to_set() =~= none.dom());
    assert(lists(order, none));
    assert(tally(none, order, definition) == 0);
}

/// No definition is unresolved more often than it was given, whatever the order in which what is
/// unresolved is gone through.
pub proof fn definitions_are_not_multiplied(
    names: Map<Seq<u32>, SymbolView>,
    definitions: Seq<DefinitionView>,
    extended: Map<Seq<u32>, SymbolView>,
    unresolved: Map<Seq<char>, Seq<DefinitionView>>,
    order: Seq<Seq<char>>,
    definition: DefinitionView,
)
    requires
        resolve_to(names, definitions, extended, unresolved),
        lists(order, unresolved),
    ensures
        occurrences(in_turn(unresolved, order), definition) <= occurrences(definitions, definition),
{
    let start = before_definitions(names, definitions);
    let (middle, turns, end) = choose|middle: Progress, turns: Seq<Seq<char>>, end: Progress|
        {
            &&& #[trigger] start.placed_all(definitions).drains_to(middle)
            &&& #[trigger] lists(turns, middle.state.waiting)
            &&& #[trigger] middle.relaxed().placed_all(
                in_turn(middle.state.waiting, turns),
            ).drains_to(end)
            &&& extended == end.names
            &&& unresolved == end.state.waiting
        };
    let limit = occurrences(definitions, definition);
    lemma_nothing_waits(definition);
    lemma_placed_all_waits(start, definitions, definition, 0);
    let steps = choose|steps: nat| #[trigger]
        start.placed_all(definitions).drained(steps) == middle;
    lemma_drained_waits(start.placed_all(definitions), steps, definition, limit);
    let some = choose|some: Seq<Seq<char>>| #[trigger]
        lists(some, middle.state.waiting) && tally(middle.state.waiting, some, definition) <= limit;
    lemma_any_order(middle.state.waiting, some, turns, definition);
    let again = in_turn(middle.state.waiting, turns);
    lemma_placed_all_waits(middle.relaxed(), again, definition, 0);
    let more = choose|steps: nat| #[trigger]
        middle.relaxed().placed_all(again).drained(steps) == end;
    lemma_drained_waits(
        middle.relaxed().placed_all(again),
        more,
        definition,
        occurrences(again, definition),
    );
    let last = choose|last: Seq<Seq<char>>| #[trigger]
        lists(last, unresolved) && tally(unresolved, last, definition) <= occurrences(
            again,
            definition,
        );
    lemma_any_order(unresolved, last, order, definition);
}

/// The value of a definition refers to a symbol of this name.
pub open spec fn refers_to(definition: DefinitionView, name: Seq<char>) -> bool {
    exists|i: int|
        0 <= i < definition.elements.len() && ((#[trigger] definition.elements[i]) matches
            ElementView::Symbol(symbol) && symbol.name == name)
}

proof fn lemma_waits_for_reference(
    state: StateView,
    definition: DefinitionView,
    index: int,
    oid: Seq<u32>,
)
    requires
        !state.strict,
        0 <= index,
    ensures
        state.resolved_from(definition.elements, index, oid) matches ElementResolutionView::Waiting(
            key,
        ) ==> refers_to(definition, key),
    decreases definition.elements.len() - index,
{
    let elements = definition.elements;
    if index < elements.len() {
        match elements[index] {
            ElementView::Number(number) => {
                lemma_waits_for_reference(state, definition, index + 1, oid.push(number));
            },
            ElementView::Symbol(symbol) => {
                if let Ok(arcs) = state.referenced(symbol) {
                    lemma_waits_for_reference(state, definition, index + 1, arcs);
                }
            },
            ElementView::NamedNumber(name, number) => {
                let arcs = state.symbols[name];
                lemma_waits_for_reference(state, definition, index + 1, oid.push(number));
                lemma_waits_for_reference(state, definition, index + 1, arcs);
                lemma_waits_for_reference(state, definition, index + 1, arcs.push(number));
            },
        }
    }
}

/// Every definition that waits for a symbol refers to it by its bare name.
pub open spec fn waits_for_references(waiting: Map<Seq<char>, Seq<DefinitionView>>) -> bool {
    forall|key: Seq<char>, i: int|
        waiting.contains_key(key) && 0 <= i < waiting[key].len() ==> refers_to(
            #[trigger] waiting[key][i],
            key,
        )
}

proof fn lemma_placed_all_refers(progress: Progress, items: Seq<DefinitionView>)
    requires
        !progress.state.strict,
        waits_for_references(progress.state.waiting),
    ensures
        !progress.placed_all(items).state.strict,
        waits_for_references(progress.placed_all(items).state.waiting),
    decreases items.len(),
{
    if items.len() > 0 {
        let before = progress.placed_all(items.drop_last());
        lemma_placed_all_refers(progress, items.drop_last());
        lemma_waits_for_reference(before.state, items.last(), 0, Seq::empty());
        let waiting = before.state.waiting;
        let after = before.placed(items.last()).state.waiting;
        assert forall|key: Seq<char>, i: int|
            after.contains_key(key) && 0 <= i < after[key].len() implies refers_to(
            #[trigger] after[key][i],
            key,
        ) by {
            if waiting.contains_key(key) && i < waiting[key].len() {
                assert(after[key][i] == waiting[key][i]);
            }
        }
    }
}

proof fn lemma_drained_refers(progress: Progress, steps: nat)
    requires
        !progress.state.strict,
        waits_for_references(progress.state.waiting),
    ensures
        !progress.drained(steps).state.strict,
        waits_for_references(progress.drained(steps).state.waiting),
    decreases steps,
{
    if steps > 0 {
        lemma_drained_refers(progress, (steps - 1) as nat);
        let before = progress.drained((steps - 1) as nat);
        if before.state.ready.len() > 0 {
            let waiting = before.state.waiting;
            let symbol = before.state.ready[0];
            if waiting.contains_key(symbol) {
                let between = Progress {
                    names: before.names,
                    state: StateView {
                        waiting: waiting.remove(symbol),
                        ready: before.state.ready.skip(1),
                        ..before.state
                    },
                };
                assert forall|key: Seq<char>, i: int|
                    between.state.waiting.contains_key(key) && 0 <= i
                        < between.state.waiting[key].len() implies refers_to(
                    #[trigger] between.state.waiting[key][i],
                    key,
                ) by {
                    assert(between.state.waiting[key][i] == waiting[key][i]);
                }
                lemma_placed_all_refers(between, waiting[symbol]);
            }
        }
    }
}

/// What a definition is unresolved for is the bare name of a symbol that it refers to.
pub proof fn unresolved_symbols_are_referred_to(
    names: Map<Seq<u32>, SymbolView>,
    definitions: Seq<DefinitionView>,
    extended: Map<Seq<u32>, SymbolView>,
    unresolved: Map<Seq<char>, Seq<DefinitionView>>,
)
    requires
        resolve_to(names, definitions, extended, unresolved),
    ensures
        waits_for_references(unresolved),
{
    let start = before_definitions(names, definitions);
    let (middle, turns, end) = choose|middle: Progress, turns: Seq<Seq<char>>, end: Progress|
        {
            &&& #[trigger] start.placed_all(definitions).drains_to(middle)
            &&& #[trigger] lists(turns, middle.state.waiting)
            &&& #[trigger] middle.relaxed().placed_all(
                in_turn(middle.state.waiting, turns),
            ).drains_to(end)
            &&& extended == end.names
            &&& unresolved == end.state.waiting
        };
    let again = in_turn(middle.state.waiting, turns);
    lemma_placed_all_refers(middle.relaxed(), again);
    let more = choose|steps: nat| #[trigger]
        middle.relaxed().placed_all(again).drained(steps) == end;
    lemma_drained_refers(middle.relaxed().placed_all(again), more);
}

} // verus!
