//! Resolving definitions against the symbols known so far.

use crate::mib::parser::{
    elements_view, DefinitionView, ElementView, OidElement, SymbolRef, SymbolRefView,
};
use crate::mib::table::{oid_less, SymbolView};
use crate::mib::waiting::WaitingDefinitions;
use std::collections::VecDeque;
use vstd::hash_map::StringHashMap;
use vstd::hash_set::StringHashSet;
use vstd::prelude::*;
use vstd::string::*;

verus! {

/// A name with the module that defines it.
pub open spec fn qualified(module: Seq<char>, name: Seq<char>) -> Seq<char> {
    module + "::"@ + name
}

/// A name with the module that defines it.
pub fn qualified_name(module: &str, name: &str) -> (r: String)
    ensures
        r@ == qualified(module@, name@),
{
    module.to_owned().concat("::").concat(name)
}

/// What is known while definitions are resolved.
pub struct ResolutionState {
    pub symbols: StringHashMap<Vec<u32>>,
    pub loaded_modules: StringHashSet,
    pub waiting_by_symbol: WaitingDefinitions,
    pub ready_symbols: VecDeque<String>,
    /// When set, a reference qualified with a loaded module only resolves against that module.
    pub strict: bool,
}

/// A [`ResolutionState`] as mathematical values.
#[verifier::ext_equal]
pub ghost struct StateView {
    pub symbols: Map<Seq<char>, Seq<u32>>,
    pub loaded_modules: Set<Seq<char>>,
    pub waiting: Map<Seq<char>, Seq<DefinitionView>>,
    pub ready: Seq<Seq<char>>,
    pub strict: bool,
}

/// The arcs of each symbol.
pub open spec fn symbol_arcs(symbols: Map<Seq<char>, Vec<u32>>) -> Map<Seq<char>, Seq<u32>> {
    symbols.map_values(|oid: Vec<u32>| oid@)
}

impl View for ResolutionState {
    type V = StateView;

    open spec fn view(&self) -> StateView {
        StateView {
            symbols: symbol_arcs(self.symbols@),
            loaded_modules: self.loaded_modules@,
            waiting: self.waiting_by_symbol@,
            ready: self.ready_symbols@.map_values(|symbol: String| symbol@),
            strict: self.strict,
        }
    }
}

/// The outcome of trying to resolve a definition against the symbols known so far.
pub enum ElementResolution {
    Resolved(Vec<u32>),
    /// The definition is waiting for the symbol stored under this key to be resolved.
    Waiting(String),
    Invalid,
}

/// An [`ElementResolution`] as mathematical values.
pub ghost enum ElementResolutionView {
    Resolved(Seq<u32>),
    Waiting(Seq<char>),
    Invalid,
}

impl View for ElementResolution {
    type V = ElementResolutionView;

    open spec fn view(&self) -> ElementResolutionView {
        match self {
            ElementResolution::Resolved(oid) => ElementResolutionView::Resolved(oid@),
            ElementResolution::Waiting(key) => ElementResolutionView::Waiting(key@),
            ElementResolution::Invalid => ElementResolutionView::Invalid,
        }
    }
}

impl StateView {
    /// What a reference refers to, or the key to wait for. A symbol of the same name from another
    /// module is accepted where the expected module is not being loaded at all (for example, SMIv1
    /// imports from `RFC1155-SMI`), or where the state is not strict.
    pub open spec fn referenced(self, symbol: SymbolRefView) -> Result<Seq<u32>, Seq<char>> {
        let key = qualified(symbol.module->0, symbol.name);
        if symbol.module is Some && self.symbols.contains_key(key) {
            Ok(self.symbols[key])
        } else if symbol.module is Some && self.strict && self.loaded_modules.contains(
            symbol.module->0,
        ) {
            Err(key)
        } else if self.symbols.contains_key(symbol.name) {
            Ok(self.symbols[symbol.name])
        } else {
            Err(symbol.name)
        }
    }

    /// What the elements from `index` on make of the arcs `oid` before them.
    pub open spec fn resolved_from(
        self,
        elements: Seq<ElementView>,
        index: int,
        oid: Seq<u32>,
    ) -> ElementResolutionView
        decreases elements.len() - index,
    {
        if index >= elements.len() {
            if oid.len() == 0 {
                ElementResolutionView::Invalid
            } else {
                ElementResolutionView::Resolved(oid)
            }
        } else {
            match elements[index] {
                ElementView::Number(number) => self.resolved_from(
                    elements,
                    index + 1,
                    oid.push(number),
                ),
                ElementView::Symbol(symbol) => match self.referenced(symbol) {
                    Err(key) => ElementResolutionView::Waiting(key),
                    Ok(arcs) => if oid.is_prefix_of(arcs) {
                        self.resolved_from(elements, index + 1, arcs)
                    } else {
                        ElementResolutionView::Invalid
                    },
                },
                ElementView::NamedNumber(name, number) => if oid.len() == 0
                    && self.symbols.contains_key(name) {
                    let arcs = self.symbols[name];
                    if arcs.len() > 0 && arcs.last() == number {
                        self.resolved_from(elements, index + 1, arcs)
                    } else {
                        self.resolved_from(elements, index + 1, arcs.push(number))
                    }
                } else {
                    self.resolved_from(elements, index + 1, oid.push(number))
                },
            }
        }
    }

    /// What the elements of a value make.
    pub open spec fn resolved(self, elements: Seq<ElementView>) -> ElementResolutionView {
        self.resolved_from(elements, 0, Seq::empty())
    }
}

/// A copy of the arcs.
pub fn copy_arcs(arcs: &Vec<u32>) -> (r: Vec<u32>)
    ensures
        r@ == arcs@,
{
    let mut copy: Vec<u32> = Vec::new();
    for index in 0..arcs.len()
        invariant
            copy@ == arcs@.take(index as int),
    {
        copy.push(arcs[index]);
    }
    copy
}

fn starts_with(arcs: &[u32], prefix: &[u32]) -> (r: bool)
    ensures
        r == prefix@.is_prefix_of(arcs@),
{
    if prefix.len() > arcs.len() {
        return false;
    }
    for index in 0..prefix.len()
        invariant
            prefix@.len() <= arcs@.len(),
            forall|i: int| 0 <= i < index ==> prefix@[i] == arcs@[i],
    {
        if prefix[index] != arcs[index] {
            assert(prefix@[index as int] != arcs@.subrange(0, prefix@.len() as int)[index as int]);
            return false;
        }
    }
    assert(prefix@ =~= arcs@.subrange(0, prefix@.len() as int));
    true
}

impl ResolutionState {
    /// Looks up a referenced symbol, returning the key to wait on when it is not yet known.
    pub fn lookup(&self, symbol: &SymbolRef) -> (r: Result<&Vec<u32>, String>)
        ensures
            match r {
                Ok(oid) => self@.referenced(symbol@) == Ok::<_, Seq<char>>(oid@),
                Err(key) => self@.referenced(symbol@) == Err::<Seq<u32>, _>(key@),
            },
    {
        if let Some(module) = &symbol.module {
            let key = qualified_name(module.as_str(), symbol.name.as_str());
            if let Some(oid) = self.symbols.get(key.as_str()) {
                return Ok(oid);
            }
            if self.strict && self.loaded_modules.contains(module.as_str()) {
                return Err(key);
            }
        }
        match self.symbols.get(symbol.name.as_str()) {
            Some(oid) => Ok(oid),
            None => Err(symbol.name.clone()),
        }
    }

    /// Tries to resolve the elements of a value.
    pub fn resolve_elements(&self, elements: &[OidElement]) -> (r: ElementResolution)
        ensures
            r@ == self@.resolved(elements_view(elements@)),
    {
        let mut oid: Vec<u32> = Vec::new();
        let ghost views = elements_view(elements@);
        assert(oid@ =~= Seq::empty());
        for index in 0..elements.len()
            invariant
                views == elements_view(elements@),
                self@.resolved_from(views, index as int, oid@) == self@.resolved(views),
        {
            assert(views[index as int] == elements@[index as int]@);
            match &elements[index] {
                OidElement::Number(number) => {
                    oid.push(*number);
                },
                OidElement::Symbol(symbol) => {
                    match self.lookup(symbol) {
                        Ok(arcs) => {
                            if starts_with(arcs.as_slice(), oid.as_slice()) {
                                oid = copy_arcs(arcs);
                            } else {
                                return ElementResolution::Invalid;
                            }
                        },
                        Err(key) => {
                            return ElementResolution::Waiting(key);
                        },
                    }
                },
                OidElement::NamedNumber(name, number) => {
                    let known: Option<&Vec<u32>> = if oid.len() == 0 {
                        self.symbols.get(name.as_str())
                    } else {
                        None
                    };
                    match known {
                        Some(arcs) => {
                            oid = copy_arcs(arcs);
                            if oid.len() == 0 || oid[oid.len() - 1] != *number {
                                oid.push(*number);
                            }
                        },
                        None => {
                            oid.push(*number);
                        },
                    }
                },
            }
        }
        if oid.len() == 0 {
            ElementResolution::Invalid
        } else {
            ElementResolution::Resolved(oid)
        }
    }
}

impl ResolutionState {
    /// What bounds the work that is left: each waiting definition may still make two symbols ready.
    pub open spec fn work(self) -> nat {
        3 * self.waiting_by_symbol.count() + self.ready_symbols@.len()
    }
}

/// The names given so far, and what is known besides.
#[verifier::ext_equal]
pub ghost struct Progress {
    pub names: Map<Seq<u32>, SymbolView>,
    pub state: StateView,
}

/// The symbol that a definition makes of its value.
pub open spec fn defined_symbol(definition: DefinitionView) -> SymbolView {
    SymbolView {
        module: definition.module,
        name: definition.name,
        prefix_resolves: definition.prefix_resolves,
    }
}

impl Progress {
    /// After one definition: it names its value, waits for a symbol, or is dropped as invalid.
    pub open spec fn placed(self, definition: DefinitionView) -> Progress {
        match self.state.resolved(definition.elements) {
            ElementResolutionView::Resolved(oid) => {
                let names = self.names.insert(oid, defined_symbol(definition));
                let symbols = self.state.symbols.insert(definition.name, oid);
                let ready = self.state.ready.push(definition.name);
                match definition.module {
                    Some(module) => {
                        let key = qualified(module, definition.name);
                        Progress {
                            names,
                            state: StateView {
                                symbols: symbols.insert(key, oid),
                                ready: ready.push(key),
                                ..self.state
                            },
                        }
                    },
                    None => Progress { names, state: StateView { symbols, ready, ..self.state } },
                }
            },
            ElementResolutionView::Waiting(key) => {
                let waiting = if self.state.waiting.contains_key(key) {
                    self.state.waiting[key]
                } else {
                    Seq::empty()
                };
                Progress {
                    names: self.names,
                    state: StateView {
                        waiting: self.state.waiting.insert(key, waiting.push(definition)),
                        ..self.state
                    },
                }
            },
            ElementResolutionView::Invalid => self,
        }
    }

    /// After the definitions, one by one.
    pub open spec fn placed_all(self, definitions: Seq<DefinitionView>) -> Progress
        decreases definitions.len(),
    {
        if definitions.len() == 0 {
            self
        } else {
            self.placed_all(definitions.drop_last()).placed(definitions.last())
        }
    }

    /// After the first ready symbol: the definitions that waited for it are tried again.
    pub open spec fn stepped(self) -> Progress {
        let symbol = self.state.ready[0];
        let state = StateView { ready: self.state.ready.skip(1), ..self.state };
        if state.waiting.contains_key(symbol) {
            Progress {
                names: self.names,
                state: StateView { waiting: state.waiting.remove(symbol), ..state },
            }.placed_all(state.waiting[symbol])
        } else {
            Progress { names: self.names, state }
        }
    }

    /// After at most `steps` ready symbols.
    pub open spec fn drained(self, steps: nat) -> Progress
        decreases steps,
    {
        if steps == 0 {
            self
        } else {
            let before = self.drained((steps - 1) as nat);
            if before.state.ready.len() == 0 {
                before
            } else {
                before.stepped()
            }
        }
    }

    /// `end` is what is left when no symbol is ready any more.
    pub open spec fn drains_to(self, end: Progress) -> bool {
        &&& end.state.ready.len() == 0
        &&& exists|steps: nat| #[trigger] self.drained(steps) == end
    }

    /// The same, with references free to fall back to any module, and nothing waiting.
    pub open spec fn relaxed(self) -> Progress {
        Progress {
            names: self.names,
            state: StateView { waiting: Map::empty(), strict: false, ..self.state },
        }
    }
}

/// The definitions of the waiting symbols, symbol by symbol in the given order.
pub open spec fn in_turn(
    waiting: Map<Seq<char>, Seq<DefinitionView>>,
    order: Seq<Seq<char>>,
) -> Seq<DefinitionView>
    decreases order.len(),
{
    if order.len() == 0 {
        Seq::empty()
    } else {
        in_turn(waiting, order.drop_last()) + waiting[order.last()]
    }
}

/// `order` lists every waiting symbol once.
pub open spec fn lists(
    order: Seq<Seq<char>>,
    waiting: Map<Seq<char>, Seq<DefinitionView>>,
) -> bool {
    order.no_duplicates() && order.to_set() == waiting.dom()
}

/// Whether a named object identifier can be referred to by `key`.
pub open spec fn answers_to(symbol: SymbolView, key: Seq<char>) -> bool {
    key == symbol.name || (symbol.module is Some && key == qualified(symbol.module->0, symbol.name))
}

/// `oid` is the last object identifier that can be referred to by `key`.
pub open spec fn last_answering(
    names: Map<Seq<u32>, SymbolView>,
    key: Seq<char>,
    oid: Seq<u32>,
) -> bool {
    &&& names.contains_key(oid)
    &&& answers_to(names[oid], key)
    &&& forall|other: Seq<u32>| #[trigger]
        names.contains_key(other) && answers_to(names[other], key) ==> other == oid || oid_less(
            other,
            oid,
        )
}

/// What each key refers to: the last of the object identifiers that answer to it.
pub open spec fn symbols_of(names: Map<Seq<u32>, SymbolView>) -> Map<Seq<char>, Seq<u32>> {
    Map::new(
        |key: Seq<char>| exists|oid: Seq<u32>| last_answering(names, key, oid),
        |key: Seq<char>| choose|oid: Seq<u32>| last_answering(names, key, oid),
    )
}

/// The modules that define something.
pub open spec fn modules_of(definitions: Seq<DefinitionView>) -> Set<Seq<char>> {
    Set::new(
        |module: Seq<char>|
            exists|i: int|
                0 <= i < definitions.len() && (#[trigger] definitions[i]).module == Some(module),
    )
}

/// Before any definition is placed.
pub open spec fn before_definitions(
    names: Map<Seq<u32>, SymbolView>,
    definitions: Seq<DefinitionView>,
) -> Progress {
    Progress {
        names,
        state: StateView {
            symbols: symbols_of(names),
            loaded_modules: modules_of(definitions),
            waiting: Map::empty(),
            ready: Seq::empty(),
            strict: true,
        },
    }
}

/// How definitions extend names. Every definition is tried, and tried again when the symbol that it
/// waits for is known. What still waits then is tried once more, in whatever order of the symbols,
/// with references free to fall back to any module: some modules import a symbol from a module that
/// does not define it. What waits in the end is unresolved.
pub open spec fn resolve_to(
    names: Map<Seq<u32>, SymbolView>,
    definitions: Seq<DefinitionView>,
    extended: Map<Seq<u32>, SymbolView>,
    unresolved: Map<Seq<char>, Seq<DefinitionView>>,
) -> bool {
    exists|middle: Progress, order: Seq<Seq<char>>, end: Progress|
        {
            &&& #[trigger] before_definitions(names, definitions).placed_all(definitions).drains_to(
                middle,
            )
            &&& #[trigger] lists(order, middle.state.waiting)
            &&& #[trigger] middle.relaxed().placed_all(
                in_turn(middle.state.waiting, order),
            ).drains_to(end)
            &&& extended == end.names
            &&& unresolved == end.state.waiting
        }
}

} // verus!
