//! Names of object identifiers, resolved from MIB definitions.

use crate::mib::parser::{
    definitions_view, file_definitions, parse_definitions, DefinitionView, RawDefinition,
};
use crate::mib::state::{
    answers_to, before_definitions, copy_arcs, in_turn, last_answering, lists, modules_of,
    qualified, qualified_name, resolve_to, symbol_arcs, symbols_of, ElementResolution, Progress,
    ResolutionState,
};
use crate::mib::table::{
    in_order, lemma_listing_map, listing_map, listings_are_finite, oid_less,
    oid_less_is_irreflexive, oid_less_is_transitive, MibSymbol, OidTable, SymbolView,
};
use crate::mib::waiting::{entry_keys, WaitingDefinitions};
use crate::text::{
    chars_of, copy_text, decimal, opt_text, parse_unsigned, push_numeral, read_unsigned,
};
use std::collections::VecDeque;
use vstd::hash_map::StringHashMap;
use vstd::hash_set::StringHashSet;
use vstd::prelude::*;
use vstd::slice::slice_subrange;
use vstd::string::*;

verus! {

/// The first dot from `index` on, or the number of characters.
pub open spec fn dot_position(text: Seq<char>, index: int) -> int
    decreases text.len() - index,
{
    if index >= text.len() || text[index] == '.' {
        index
    } else {
        dot_position(text, index + 1)
    }
}

pub proof fn lemma_dot_position(text: Seq<char>, index: int)
    requires
        index <= text.len(),
    ensures
        index <= dot_position(text, index) <= text.len(),
    decreases text.len() - index,
{
    if index < text.len() && text[index] != '.' {
        lemma_dot_position(text, index + 1);
    }
}

/// The arcs that the text from `start` on writes: unsigned 32-bit decimal numbers between dots.
pub open spec fn arcs_from(text: Seq<char>, start: int) -> Option<Seq<u32>>
    decreases text.len() - start,
{
    if start > text.len() {
        None
    } else {
        let end = dot_position(text, start);
        proof {
            lemma_dot_position(text, start);
        }
        match read_unsigned(text.subrange(start, end), u32::MAX as nat) {
            None => None,
            Some(arc) => if end == text.len() {
                Some(seq![arc as u32])
            } else {
                match arcs_from(text, end + 1) {
                    None => None,
                    Some(rest) => Some(seq![arc as u32] + rest),
                }
            },
        }
    }
}

/// The arcs of a dotted object identifier.
pub open spec fn numeric_oid(text: Seq<char>) -> Option<Seq<u32>> {
    arcs_from(text, 0)
}

/// Reads a dotted object identifier.
pub fn parse_numeric_oid(oid: &str) -> (r: Option<Vec<u32>>)
    ensures
        match r {
            Some(arcs) => numeric_oid(oid@) == Some(arcs@),
            None => numeric_oid(oid@) is None,
        },
{
    let text = chars_of(oid);
    let mut arcs: Vec<u32> = Vec::new();
    let mut start: usize = 0;
    loop
        invariant
            text@ == oid@,
            start <= text@.len(),
            match arcs_from(oid@, start as int) {
                Some(rest) => numeric_oid(oid@) == Some(arcs@ + rest),
                None => numeric_oid(oid@) is None,
            },
        decreases text@.len() - start,
    {
        let mut end: usize = start;
        while end < text.len() && text[end] != '.'
            invariant
                start <= end <= text@.len(),
                dot_position(text@, end as int) == dot_position(text@, start as int),
            decreases text@.len() - end,
        {
            end += 1;
        }
        let arc: u32 = match parse_unsigned(
            slice_subrange(text.as_slice(), start, end),
            u32::MAX as u64,
        ) {
            Some(arc) => arc as u32,
            None => {
                return None;
            },
        };
        let ghost before = arcs@;
        arcs.push(arc);
        if end == text.len() {
            assert(before + seq![arc] =~= arcs@);
            return Some(arcs);
        }
        proof {
            if let Some(rest) = arcs_from(oid@, end + 1) {
                assert(before + (seq![arc] + rest) =~= arcs@ + rest);
            }
        }
        start = end + 1;
    }
}

/// The arcs as decimal numbers between dots.
pub open spec fn dotted(arcs: Seq<u32>) -> Seq<char>
    decreases arcs.len(),
{
    if arcs.len() == 0 {
        Seq::empty()
    } else if arcs.len() == 1 {
        decimal(arcs[0] as nat)
    } else {
        dotted(arcs.drop_last()) + "."@ + decimal(arcs.last() as nat)
    }
}

fn render_arcs(arcs: &[u32]) -> (r: String)
    ensures
        r@ == dotted(arcs@),
{
    let mut text = String::new();
    for index in 0..arcs.len()
        invariant
            text@ == dotted(arcs@.take(index as int)),
    {
        let ghost seen = arcs@.take(index as int);
        let ghost more = arcs@.take(index + 1);
        let ghost before = text@;
        assert(more.drop_last() =~= seen);
        if index > 0 {
            text.append(".");
        }
        push_numeral(&mut text, arcs[index] as u128, 10);
        assert(text@ =~= dotted(more));
    }
    assert(arcs@.take(arcs@.len() as int) =~= arcs@);
    text
}

/// What is known of an object identifier.
#[derive(Clone, Debug, PartialEq, Eq)]
pub struct OidResolution {
    pub name: String,
    pub module: Option<String>,
    pub symbol: String,
    pub instance: Option<String>,
}

/// An [`OidResolution`] as characters.
pub ghost struct ResolutionView {
    pub name: Seq<char>,
    pub module: Option<Seq<char>>,
    pub symbol: Seq<char>,
    pub instance: Option<Seq<char>>,
}

impl View for OidResolution {
    type V = ResolutionView;

    open spec fn view(&self) -> ResolutionView {
        ResolutionView {
            name: self.name@,
            module: opt_text(self.module),
            symbol: self.symbol@,
            instance: opt_text(self.instance),
        }
    }
}

/// What a symbol, and the arcs behind it, say of an object identifier.
pub open spec fn resolution_of(symbol: SymbolView, instance: Option<Seq<char>>) -> ResolutionView {
    let base = match symbol.module {
        Some(module) => qualified(module, symbol.name),
        None => symbol.name,
    };
    ResolutionView {
        name: match instance {
            Some(instance) => base + "."@ + instance,
            None => base,
        },
        module: symbol.module,
        symbol: symbol.name,
        instance,
    }
}

/// What a symbol, and the arcs behind it, say of an object identifier.
pub fn resolution(symbol: &MibSymbol, instance: Option<String>) -> (r: OidResolution)
    ensures
        r@ == resolution_of(symbol@, opt_text(instance)),
{
    let name: String = match &symbol.module {
        Some(module) => qualified_name(module.as_str(), symbol.name.as_str()),
        None => symbol.name.clone(),
    };
    let name: String = match &instance {
        Some(instance) => name.concat(".").concat(instance.as_str()),
        None => name,
    };
    OidResolution {
        name,
        module: copy_text(&symbol.module),
        symbol: symbol.name.clone(),
        instance,
    }
}

/// The length of the longest prefix, of at most `limit` arcs, that is named and names what
/// continues it.
pub open spec fn instance_prefix(
    names: Map<Seq<u32>, SymbolView>,
    oid: Seq<u32>,
    limit: int,
) -> Option<int>
    decreases limit,
{
    if limit <= 0 {
        None
    } else if names.contains_key(oid.take(limit)) && names[oid.take(limit)].prefix_resolves {
        Some(limit)
    } else {
        instance_prefix(names, oid, limit - 1)
    }
}

/// What the names tell of an object identifier: its own name, or else the instance of the longest
/// prefix that has instances.
pub open spec fn resolve_oid(names: Map<Seq<u32>, SymbolView>, oid: Seq<u32>) -> Option<
    ResolutionView,
> {
    if names.contains_key(oid) {
        Some(resolution_of(names[oid], None))
    } else {
        match instance_prefix(names, oid, oid.len() - 1) {
            Some(length) => Some(
                resolution_of(names[oid.take(length)], Some(dotted(oid.skip(length)))),
            ),
            None => None,
        }
    }
}

/// What the names tell of an object identifier in dotted text.
pub open spec fn resolve_text(names: Map<Seq<u32>, SymbolView>, oid: Seq<char>) -> Option<
    ResolutionView,
> {
    match numeric_oid(oid) {
        Some(oid) => resolve_oid(names, oid),
        None => None,
    }
}

/// Names of object identifiers.
#[derive(Debug)]
pub struct MibResolver {
    names_by_oid: OidTable,
}

impl View for MibResolver {
    type V = Map<Seq<u32>, SymbolView>;

    closed spec fn view(&self) -> Map<Seq<u32>, SymbolView> {
        self.names_by_oid@
    }
}

/// A resolver names finitely many object identifiers.
pub proof fn resolvers_are_finite(resolver: MibResolver)
    ensures
        resolver@.dom().finite(),
{
    listings_are_finite(resolver.names_by_oid.listing());
}

impl Default for MibResolver {
    fn default() -> (r: MibResolver)
        ensures
            r@ == Map::<Seq<u32>, SymbolView>::empty(),
    {
        MibResolver { names_by_oid: OidTable::new() }
    }
}

impl MibResolver {
    /// What is known of an object identifier in dotted text.
    pub fn resolve(&self, oid: &str) -> (r: Option<OidResolution>)
        ensures
            match r {
                Some(resolution) => resolve_text(self@, oid@) == Some(resolution@),
                None => resolve_text(self@, oid@) is None,
            },
    {
        let arcs: Vec<u32> = match parse_numeric_oid(oid) {
            Some(arcs) => arcs,
            None => {
                return None;
            },
        };
        if let Some(symbol) = self.names_by_oid.get(arcs.as_slice()) {
            return Some(resolution(symbol, None));
        }
        // Walking the prefixes keeps lookups proportional to the length of the identifier rather
        // than to the number of names.
        let mut length: usize = arcs.len();
        while length > 1
            invariant
                length <= arcs@.len(),
                instance_prefix(self@, arcs@, length - 1) == instance_prefix(
                    self@,
                    arcs@,
                    arcs@.len() - 1,
                ),
                !self@.contains_key(arcs@),
                numeric_oid(oid@) == Some(arcs@),
            decreases length,
        {
            length -= 1;
            let prefix = slice_subrange(arcs.as_slice(), 0, length);
            assert(prefix@ =~= arcs@.take(length as int));
            if let Some(symbol) = self.names_by_oid.get(prefix) {
                if symbol.prefix_resolves {
                    let rest = slice_subrange(arcs.as_slice(), length, arcs.len());
                    assert(rest@ =~= arcs@.skip(length as int));
                    return Some(resolution(symbol, Some(render_arcs(rest))));
                }
            }
        }
        None
    }
}

impl MibResolver {
    /// Names an object identifier.
    pub fn insert_builtin(&mut self, module: &str, name: &str, oid: &[u32], prefix_resolves: bool)
        ensures
            final(self)@ == old(self)@.insert(
                oid@,
                SymbolView { module: Some(module@), name: name@, prefix_resolves },
            ),
    {
        let mut arcs: Vec<u32> = Vec::new();
        for index in 0..oid.len()
            invariant
                arcs@ == oid@.take(index as int),
                self@ == old(self)@,
        {
            arcs.push(oid[index]);
        }
        assert(arcs@ =~= oid@);
        self.names_by_oid.insert(
            arcs,
            MibSymbol { module: Some(module.to_owned()), name: name.to_owned(), prefix_resolves },
        );
    }

    /// Places one definition: it names its value, waits for a symbol, or is dropped as invalid.
    pub fn resolve_or_queue_definition(
        &mut self,
        definition: RawDefinition,
        state: &mut ResolutionState,
    )
        ensures
            (Progress { names: final(self)@, state: final(state)@ }) == (Progress {
                names: old(self)@,
                state: old(state)@,
            }).placed(definition@),
            final(state).work() <= old(state).work() + 3,
    {
        let ghost before = state@;
        match state.resolve_elements(definition.elements.as_slice()) {
            ElementResolution::Resolved(oid) => {
                let ghost arcs = oid@;
                let RawDefinition { module, name, prefix_resolves, elements: _ } = definition;
                state.symbols.insert(name.clone(), copy_arcs(&oid));
                state.ready_symbols.push_back(name.clone());
                assert(state@.symbols =~= before.symbols.insert(name@, arcs));
                assert(state@.ready =~= before.ready.push(name@));
                if let Some(module) = &module {
                    let key = qualified_name(module.as_str(), name.as_str());
                    state.symbols.insert(key.clone(), copy_arcs(&oid));
                    state.ready_symbols.push_back(key);
                    assert(state@.symbols =~= before.symbols.insert(name@, arcs).insert(
                        key@,
                        arcs,
                    ));
                    assert(state@.ready =~= before.ready.push(name@).push(key@));
                }
                self.names_by_oid.insert(oid, MibSymbol { module, name, prefix_resolves });
            },
            ElementResolution::Waiting(key) => {
                state.waiting_by_symbol.push(key, definition);
            },
            ElementResolution::Invalid => {},
        }
    }

    fn place_all(&mut self, definitions: Vec<RawDefinition>, state: &mut ResolutionState)
        ensures
            (Progress { names: final(self)@, state: final(state)@ }) == (Progress {
                names: old(self)@,
                state: old(state)@,
            }).placed_all(definitions_view(definitions@)),
            final(state).work() <= old(state).work() + 3 * definitions@.len(),
    {
        let ghost start = Progress { names: self@, state: state@ };
        let ghost all = definitions_view(definitions@);
        let ghost work = state.work();
        for definition in it: definitions
            invariant
                it.seq() == definitions@,
                all == definitions_view(definitions@),
                (Progress { names: self@, state: state@ }) == start.placed_all(
                    all.take(it.index() as int),
                ),
                state.work() <= work + 3 * it.index(),
        {
            proof {
                let index = it.index() as int;
                assert(all.take(index + 1).drop_last() =~= all.take(index));
                assert(all.take(index + 1).last() == definition@);
            }
            self.resolve_or_queue_definition(definition, state);
        }
        assert(all.take(all.len() as int) =~= all);
    }

    /// Tries definitions again whose symbol has become known, until none is ready.
    pub fn drain_ready_symbols(&mut self, state: &mut ResolutionState)
        ensures
            (Progress { names: old(self)@, state: old(state)@ }).drains_to(
                (Progress { names: final(self)@, state: final(state)@ }),
            ),
    {
        let ghost start = Progress { names: self@, state: state@ };
        let ghost mut steps: nat = 0;
        assert(start.drained(0) == start);
        loop
            invariant
                (Progress { names: self@, state: state@ }) == start.drained(steps),
            ensures
                state@.ready.len() == 0,
                (Progress { names: self@, state: state@ }) == start.drained(steps),
            decreases state.work(),
        {
            let ghost before = Progress { names: self@, state: state@ };
            let symbol: String = match state.ready_symbols.pop_front() {
                Some(symbol) => symbol,
                None => {
                    break ;
                },
            };
            assert(symbol@ == before.state.ready[0]);
            assert(state@.ready =~= before.state.ready.skip(1));
            if let Some(waiting) = state.waiting_by_symbol.take(symbol.as_str()) {
                self.place_all(waiting, state);
            }
            proof {
                assert((Progress { names: self@, state: state@ }) == before.stepped());
                steps = steps + 1;
            }
        }
    }
}

/// Among the first `count` entries of the listing, the last that answers to `key` is at `index`.
spec fn last_listed(
    listing: Seq<(Seq<u32>, SymbolView)>,
    count: int,
    key: Seq<char>,
    index: int,
) -> bool {
    &&& 0 <= index < count
    &&& answers_to(listing[index].1, key)
    &&& forall|later: int|
        index < later < count ==> !answers_to((#[trigger] listing[later]).1, key)
}

/// The symbols are those of the first `count` entries of the listing.
spec fn symbols_listed(
    listing: Seq<(Seq<u32>, SymbolView)>,
    count: int,
    symbols: Map<Seq<char>, Seq<u32>>,
) -> bool {
    &&& forall|key: Seq<char>, index: int| #[trigger]
        last_listed(listing, count, key, index) ==> symbols.contains_key(key) && symbols[key]
            == listing[index].0
    &&& forall|key: Seq<char>| #[trigger]
        symbols.contains_key(key) ==> exists|index: int| last_listed(listing, count, key, index)
}

proof fn lemma_last_answering_is_unique(
    names: Map<Seq<u32>, SymbolView>,
    key: Seq<char>,
    left: Seq<u32>,
    right: Seq<u32>,
)
    requires
        last_answering(names, key, left),
        last_answering(names, key, right),
    ensures
        left == right,
{
    if left != right {
        oid_less_is_transitive(left, right, left);
        oid_less_is_irreflexive(left);
    }
}

/// The symbols of a listing are those that its map gives.
proof fn lemma_listed_symbols(
    listing: Seq<(Seq<u32>, SymbolView)>,
    symbols: Map<Seq<char>, Seq<u32>>,
)
    requires
        in_order(listing),
        symbols_listed(listing, listing.len() as int, symbols),
    ensures
        symbols == symbols_of(listing_map(listing)),
{
    let names = listing_map(listing);
    let count = listing.len() as int;
    assert forall|key: Seq<char>, index: int| #[trigger]
        last_listed(listing, count, key, index) implies last_answering(
        names,
        key,
        listing[index].0,
    ) by {
        lemma_listing_map(listing, index);
        assert forall|other: Seq<u32>| #[trigger]
            names.contains_key(other) && answers_to(names[other], key) implies other
            == listing[index].0 || oid_less(other, listing[index].0) by {
            let place = choose|place: int|
                0 <= place < listing.len() && #[trigger] listing[place].0 == other;
            lemma_listing_map(listing, place);
        }
    }
    assert forall|key: Seq<char>| #[trigger] symbols.contains_key(key) implies symbols_of(
        names,
    ).contains_key(key) && symbols_of(names)[key] == symbols[key] by {
        let index = choose|index: int| last_listed(listing, count, key, index);
        assert(last_answering(names, key, listing[index].0));
        let chosen = choose|oid: Seq<u32>| last_answering(names, key, oid);
        lemma_last_answering_is_unique(names, key, chosen, listing[index].0);
    }
    assert forall|key: Seq<char>| #[trigger]
        symbols_of(names).contains_key(key) implies symbols.contains_key(key) by {
        let oid = choose|oid: Seq<u32>| last_answering(names, key, oid);
        let place = choose|place: int|
            0 <= place < listing.len() && #[trigger] listing[place].0 == oid;
        lemma_listing_map(listing, place);
        lemma_some_is_last_listed(listing, count, key, place);
    }
    assert(symbols =~= symbols_of(names));
}

proof fn lemma_some_is_last_listed(
    listing: Seq<(Seq<u32>, SymbolView)>,
    count: int,
    key: Seq<char>,
    place: int,
)
    requires
        0 <= place < count <= listing.len(),
        answers_to(listing[place].1, key),
    ensures
        exists|index: int| last_listed(listing, count, key, index),
    decreases count - place,
{
    if last_listed(listing, count, key, place) {
    } else {
        let later = choose|later: int|
            place < later < count && answers_to((#[trigger] listing[later]).1, key);
        lemma_some_is_last_listed(listing, count, key, later);
    }
}

proof fn lemma_one_more_listed(
    listing: Seq<(Seq<u32>, SymbolView)>,
    count: int,
    before: Map<Seq<char>, Seq<u32>>,
    after: Map<Seq<char>, Seq<u32>>,
)
    requires
        0 <= count < listing.len(),
        symbols_listed(listing, count, before),
        forall|key: Seq<char>| #[trigger]
            after.contains_key(key) <==> before.contains_key(key) || answers_to(
                listing[count].1,
                key,
            ),
        forall|key: Seq<char>| #[trigger]
            after.contains_key(key) ==> after[key] == (if answers_to(listing[count].1, key) {
                listing[count].0
            } else {
                before[key]
            }),
    ensures
        symbols_listed(listing, count + 1, after),
{
    let next = count + 1;
    assert forall|key: Seq<char>, place: int| #[trigger]
        last_listed(listing, next, key, place) implies after.contains_key(key) && after[key]
        == listing[place].0 by {
        if place < count {
            assert(!answers_to(listing[count].1, key));
            assert(last_listed(listing, count, key, place));
        }
        assert(after.contains_key(key));
    }
    assert forall|key: Seq<char>| #[trigger] after.contains_key(key) implies exists|place: int|
        last_listed(listing, next, key, place) by {
        if answers_to(listing[count].1, key) {
            assert(last_listed(listing, next, key, count));
        } else {
            assert(before.contains_key(key));
            let place = choose|place: int| last_listed(listing, count, key, place);
            assert(last_listed(listing, next, key, place));
        }
    }
}

impl MibResolver {
    /// What each name, bare and qualified, refers to. Where several object identifiers share a
    /// name, it is the last of them.
    pub fn symbols_by_name(&self) -> (r: StringHashMap<Vec<u32>>)
        ensures
            symbol_arcs(r@) == symbols_of(self@),
    {
        let mut symbols: StringHashMap<Vec<u32>> = StringHashMap::new();
        let count: usize = self.names_by_oid.len();
        let ghost listing = self.names_by_oid.listing();
        let mut index: usize = 0;
        while index < count
            invariant
                listing == self.names_by_oid.listing(),
                index <= count,
                count == listing.len(),
                symbols_listed(listing, index as int, symbol_arcs(symbols@)),
            decreases count - index,
        {
            let ghost before = symbol_arcs(symbols@);
            let (oid, symbol) = self.names_by_oid.at(index);
            symbols.insert(symbol.name.clone(), copy_arcs(oid));
            if let Some(module) = &symbol.module {
                symbols.insert(
                    qualified_name(module.as_str(), symbol.name.as_str()),
                    copy_arcs(oid),
                );
            }
            proof {
                lemma_one_more_listed(
                    listing,
                    index as int,
                    before,
                    symbol_arcs(symbols@),
                );
            }
            index += 1;
        }
        proof {
            lemma_listed_symbols(listing, symbol_arcs(symbols@));
        }
        symbols
    }

    /// Extends the names by definitions. The definitions that are left are those that wait for a
    /// symbol that nothing defines.
    pub fn resolve_definitions(&mut self, definitions: Vec<RawDefinition>) -> (r:
        WaitingDefinitions)
        ensures
            resolve_to(old(self)@, definitions_view(definitions@), final(self)@, r@),
    {
        let ghost all = definitions_view(definitions@);
        let ghost names = self@;
        let mut state = ResolutionState {
            symbols: self.symbols_by_name(),
            loaded_modules: defining_modules(&definitions),
            waiting_by_symbol: WaitingDefinitions::new(),
            ready_symbols: VecDeque::new(),
            strict: true,
        };
        assert(state@.ready =~= Seq::empty());
        assert((Progress { names, state: state@ }) == before_definitions(names, all));
        self.place_all(definitions, &mut state);
        self.drain_ready_symbols(&mut state);
        let ghost middle = Progress { names: self@, state: state@ };
        state.strict = false;
        let mut waiting = WaitingDefinitions::new();
        core::mem::swap(&mut waiting, &mut state.waiting_by_symbol);
        let entries = waiting.into_entries();
        let ghost order = entry_keys(entries@);
        let again = flattened(entries, Ghost(middle.state.waiting));
        assert((Progress { names: self@, state: state@ }) == middle.relaxed());
        self.place_all(again, &mut state);
        self.drain_ready_symbols(&mut state);
        let ghost end = Progress { names: self@, state: state@ };
        proof {
            assert(before_definitions(names, all).placed_all(all).drains_to(middle));
            assert(lists(order, middle.state.waiting));
            assert(middle.relaxed().placed_all(in_turn(middle.state.waiting, order)).drains_to(
                end,
            ));
        }
        state.waiting_by_symbol
    }
}

/// A name that needs no MIB file.
pub open spec fn builtin(module: Seq<char>, name: Seq<char>, prefix_resolves: bool) -> SymbolView {
    SymbolView { module: Some(module), name, prefix_resolves }
}

/// The names that are known without any MIB file.
pub open spec fn builtin_names() -> Map<Seq<u32>, SymbolView> {
    Map::empty()
        .insert(seq![0u32], builtin("SNMPv2-SMI"@, "ccitt"@, false))
        .insert(seq![1u32], builtin("SNMPv2-SMI"@, "iso"@, false))
        .insert(seq![2u32], builtin("SNMPv2-SMI"@, "joint-iso-ccitt"@, false))
        .insert(seq![1u32, 3], builtin("SNMPv2-SMI"@, "org"@, false))
        .insert(seq![1u32, 3, 6], builtin("SNMPv2-SMI"@, "dod"@, false))
        .insert(seq![1u32, 3, 6, 1], builtin("SNMPv2-SMI"@, "internet"@, false))
        .insert(seq![1u32, 3, 6, 1, 1], builtin("SNMPv2-SMI"@, "directory"@, false))
        .insert(seq![1u32, 3, 6, 1, 2], builtin("SNMPv2-SMI"@, "mgmt"@, false))
        .insert(seq![1u32, 3, 6, 1, 2, 1], builtin("SNMPv2-SMI"@, "mib-2"@, false))
        .insert(seq![1u32, 3, 6, 1, 3], builtin("SNMPv2-SMI"@, "experimental"@, false))
        .insert(seq![1u32, 3, 6, 1, 4], builtin("SNMPv2-SMI"@, "private"@, false))
        .insert(seq![1u32, 3, 6, 1, 4, 1], builtin("SNMPv2-SMI"@, "enterprises"@, false))
        .insert(seq![1u32, 3, 6, 1, 5], builtin("SNMPv2-SMI"@, "security"@, false))
        .insert(seq![1u32, 3, 6, 1, 6], builtin("SNMPv2-SMI"@, "snmpV2"@, false))
        .insert(seq![1u32, 3, 6, 1, 6, 3], builtin("SNMPv2-SMI"@, "snmpModules"@, false))
        .insert(seq![1u32, 3, 6, 1, 2, 1, 1], builtin("SNMPv2-MIB"@, "system"@, false))
        .insert(seq![1u32, 3, 6, 1, 2, 1, 1, 3], builtin("SNMPv2-MIB"@, "sysUpTime"@, true))
        .insert(seq![1u32, 3, 6, 1, 6, 3, 1, 1, 4], builtin("SNMPv2-MIB"@, "snmpTrap"@, false))
        .insert(seq![1u32, 3, 6, 1, 6, 3, 1, 1, 4, 1], builtin("SNMPv2-MIB"@, "snmpTrapOID"@, true))
        .insert(seq![1u32, 3, 6, 1, 6, 3, 1, 1, 5], builtin("SNMPv2-MIB"@, "snmpTraps"@, false))
        .insert(seq![1u32, 3, 6, 1, 6, 3, 1, 1, 5, 1], builtin("SNMPv2-MIB"@, "coldStart"@, false))
        .insert(seq![1u32, 3, 6, 1, 6, 3, 1, 1, 5, 2], builtin("SNMPv2-MIB"@, "warmStart"@, false))
        .insert(seq![1u32, 3, 6, 1, 6, 3, 1, 1, 5, 3], builtin("IF-MIB"@, "linkDown"@, false))
        .insert(seq![1u32, 3, 6, 1, 6, 3, 1, 1, 5, 4], builtin("IF-MIB"@, "linkUp"@, false))
        .insert(
            seq![1u32, 3, 6, 1, 6, 3, 1, 1, 5, 5],
            builtin("SNMPv2-MIB"@, "authenticationFailure"@, false),
        )
}

impl MibResolver {
    /// A resolver that knows the names of the SNMP framework and of its generic notifications.
    pub fn with_builtin_symbols() -> (r: MibResolver)
        ensures
            r@ == builtin_names(),
    {
        let mut resolver = MibResolver::default();
        proof {
            assert([0u32]@ =~= seq![0u32]);
            assert([1u32]@ =~= seq![1u32]);
            assert([2u32]@ =~= seq![2u32]);
            assert([1u32, 3]@ =~= seq![1u32, 3]);
            assert([1u32, 3, 6]@ =~= seq![1u32, 3, 6]);
            assert([1u32, 3, 6, 1]@ =~= seq![1u32, 3, 6, 1]);
            assert([1u32, 3, 6, 1, 1]@ =~= seq![1u32, 3, 6, 1, 1]);
            assert([1u32, 3, 6, 1, 2]@ =~= seq![1u32, 3, 6, 1, 2]);
            assert([1u32, 3, 6, 1, 2, 1]@ =~= seq![1u32, 3, 6, 1, 2, 1]);
            assert([1u32, 3, 6, 1, 3]@ =~= seq![1u32, 3, 6, 1, 3]);
            assert([1u32, 3, 6, 1, 4]@ =~= seq![1u32, 3, 6, 1, 4]);
            assert([1u32, 3, 6, 1, 4, 1]@ =~= seq![1u32, 3, 6, 1, 4, 1]);
            assert([1u32, 3, 6, 1, 5]@ =~= seq![1u32, 3, 6, 1, 5]);
            assert([1u32, 3, 6, 1, 6]@ =~= seq![1u32, 3, 6, 1, 6]);
            assert([1u32, 3, 6, 1, 6, 3]@ =~= seq![1u32, 3, 6, 1, 6, 3]);
            assert([1u32, 3, 6, 1, 2, 1, 1]@ =~= seq![1u32, 3, 6, 1, 2, 1, 1]);
            assert([1u32, 3, 6, 1, 2, 1, 1, 3]@ =~= seq![1u32, 3, 6, 1, 2, 1, 1, 3]);
            assert([1u32, 3, 6, 1, 6, 3, 1, 1, 4]@ =~= seq![1u32, 3, 6, 1, 6, 3, 1, 1, 4]);
            assert([1u32, 3, 6, 1, 6, 3, 1, 1, 4, 1]@ =~= seq![1u32, 3, 6, 1, 6, 3, 1, 1, 4, 1]);
            assert([1u32, 3, 6, 1, 6, 3, 1, 1, 5]@ =~= seq![1u32, 3, 6, 1, 6, 3, 1, 1, 5]);
            assert([1u32, 3, 6, 1, 6, 3, 1, 1, 5, 1]@ =~= seq![1u32, 3, 6, 1, 6, 3, 1, 1, 5, 1]);
            assert([1u32, 3, 6, 1, 6, 3, 1, 1, 5, 2]@ =~= seq![1u32, 3, 6, 1, 6, 3, 1, 1, 5, 2]);
            assert([1u32, 3, 6, 1, 6, 3, 1, 1, 5, 3]@ =~= seq![1u32, 3, 6, 1, 6, 3, 1, 1, 5, 3]);
            assert([1u32, 3, 6, 1, 6, 3, 1, 1, 5, 4]@ =~= seq![1u32, 3, 6, 1, 6, 3, 1, 1, 5, 4]);
            assert([1u32, 3, 6, 1, 6, 3, 1, 1, 5, 5]@ =~= seq![1u32, 3, 6, 1, 6, 3, 1, 1, 5, 5]);
        }
        resolver.insert_builtin("SNMPv2-SMI", "ccitt", &[0], false);
        resolver.insert_builtin("SNMPv2-SMI", "iso", &[1], false);
        resolver.insert_builtin("SNMPv2-SMI", "joint-iso-ccitt", &[2], false);
        resolver.insert_builtin("SNMPv2-SMI", "org", &[1, 3], false);
        resolver.insert_builtin("SNMPv2-SMI", "dod", &[1, 3, 6], false);
        resolver.insert_builtin("SNMPv2-SMI", "internet", &[1, 3, 6, 1], false);
        resolver.insert_builtin("SNMPv2-SMI", "directory", &[1, 3, 6, 1, 1], false);
        resolver.insert_builtin("SNMPv2-SMI", "mgmt", &[1, 3, 6, 1, 2], false);
        resolver.insert_builtin("SNMPv2-SMI", "mib-2", &[1, 3, 6, 1, 2, 1], false);
        resolver.insert_builtin("SNMPv2-SMI", "experimental", &[1, 3, 6, 1, 3], false);
        resolver.insert_builtin("SNMPv2-SMI", "private", &[1, 3, 6, 1, 4], false);
        resolver.insert_builtin("SNMPv2-SMI", "enterprises", &[1, 3, 6, 1, 4, 1], false);
        resolver.insert_builtin("SNMPv2-SMI", "security", &[1, 3, 6, 1, 5], false);
        resolver.insert_builtin("SNMPv2-SMI", "snmpV2", &[1, 3, 6, 1, 6], false);
        resolver.insert_builtin("SNMPv2-SMI", "snmpModules", &[1, 3, 6, 1, 6, 3], false);
        resolver.insert_builtin("SNMPv2-MIB", "system", &[1, 3, 6, 1, 2, 1, 1], false);
        resolver.insert_builtin("SNMPv2-MIB", "sysUpTime", &[1, 3, 6, 1, 2, 1, 1, 3], true);
        resolver.insert_builtin("SNMPv2-MIB", "snmpTrap", &[1, 3, 6, 1, 6, 3, 1, 1, 4], false);
        resolver.insert_builtin("SNMPv2-MIB", "snmpTrapOID", &[1, 3, 6, 1, 6, 3, 1, 1, 4, 1], true);
        resolver.insert_builtin("SNMPv2-MIB", "snmpTraps", &[1, 3, 6, 1, 6, 3, 1, 1, 5], false);
        resolver.insert_builtin("SNMPv2-MIB", "coldStart", &[1, 3, 6, 1, 6, 3, 1, 1, 5, 1], false);
        resolver.insert_builtin("SNMPv2-MIB", "warmStart", &[1, 3, 6, 1, 6, 3, 1, 1, 5, 2], false);
        resolver.insert_builtin("IF-MIB", "linkDown", &[1, 3, 6, 1, 6, 3, 1, 1, 5, 3], false);
        resolver.insert_builtin("IF-MIB", "linkUp", &[1, 3, 6, 1, 6, 3, 1, 1, 5, 4], false);
        resolver.insert_builtin(
            "SNMPv2-MIB",
            "authenticationFailure",
            &[1, 3, 6, 1, 6, 3, 1, 1, 5, 5],
            false,
        );
        resolver
    }

    /// A resolver that knows the builtin names and those of one MIB file.
    pub fn from_str(contents: &str) -> (r: MibResolver)
        ensures
            exists|unresolved: Map<Seq<char>, Seq<DefinitionView>>|
                resolve_to(builtin_names(), file_definitions(contents@), r@, unresolved),
    {
        let mut resolver = MibResolver::with_builtin_symbols();
        let unresolved = resolver.resolve_definitions(parse_definitions(contents));
        assert(resolve_to(
            builtin_names(),
            file_definitions(contents@),
            resolver@,
            unresolved@,
        ));
        resolver
    }
}

fn defining_modules(definitions: &Vec<RawDefinition>) -> (r: StringHashSet)
    ensures
        r@ == modules_of(definitions_view(definitions@)),
{
    let mut modules = StringHashSet::new();
    let ghost all = definitions_view(definitions@);
    assert(modules@ =~= modules_of(all.take(0)));
    for index in 0..definitions.len()
        invariant
            all == definitions_view(definitions@),
            modules@ == modules_of(all.take(index as int)),
    {
        let ghost seen = all.take(index as int);
        let ghost more = all.take(index + 1);
        let ghost before = modules@;
        if let Some(module) = &definitions[index].module {
            modules.insert(module.clone());
        }
        proof {
            assert(more =~= seen.push(all[index as int]));
            assert forall|module: Seq<char>| #[trigger]
                modules@.contains(module) == modules_of(more).contains(module) by {
                if modules_of(seen).contains(module) {
                    let place = choose|place: int|
                        0 <= place < seen.len() && (#[trigger] seen[place]).module == Some(module);
                    assert(more[place].module == Some(module));
                }
                if modules_of(more).contains(module) {
                    let place = choose|place: int|
                        0 <= place < more.len() && (#[trigger] more[place]).module == Some(module);
                    if place < index {
                        assert(seen[place].module == Some(module));
                    }
                }
                if all[index as int].module == Some(module) {
                    assert(more[index as int].module == Some(module));
                }
            }
            assert(modules@ =~= modules_of(more));
        }
    }
    assert(all.take(all.len() as int) =~= all);
    modules
}

fn flattened(
    entries: Vec<(String, Vec<RawDefinition>)>,
    waiting: Ghost<Map<Seq<char>, Seq<DefinitionView>>>,
) -> (r: Vec<RawDefinition>)
    requires
        forall|i: int|
            0 <= i < entries@.len() ==> definitions_view((#[trigger] entries@[i]).1@)
                == waiting@[entries@[i].0@],
    ensures
        definitions_view(r@) == in_turn(waiting@, entry_keys(entries@)),
{
    let mut definitions: Vec<RawDefinition> = Vec::new();
    let ghost order = entry_keys(entries@);
    assert(definitions_view(definitions@) =~= Seq::empty());
    for entry in it: entries
        invariant
            it.seq() == entries@,
            order == entry_keys(entries@),
            forall|i: int|
                0 <= i < entries@.len() ==> definitions_view((#[trigger] entries@[i]).1@)
                    == waiting@[entries@[i].0@],
            definitions_view(definitions@) == in_turn(waiting@, order.take(it.index() as int)),
    {
        let ghost before = definitions_view(definitions@);
        proof {
            let index = it.index() as int;
            assert(order.take(index + 1).drop_last() =~= order.take(index));
            assert(order.take(index + 1).last() == entry.0@);
            assert(entry == entries@[index]);
        }
        let (_, mut bucket) = entry;
        let ghost added = definitions_view(bucket@);
        definitions.append(&mut bucket);
        assert(definitions_view(definitions@) =~= before + added);
    }
    assert(order.take(order.len() as int) =~= order);
    definitions
}

} // verus!
