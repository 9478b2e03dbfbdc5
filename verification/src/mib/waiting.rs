//! Definitions that wait for a symbol.

use crate::mib::parser::{definitions_view, DefinitionView, RawDefinition};
use vstd::hash_map::StringHashMap;
use vstd::prelude::*;

verus! {

/// Definitions by the symbol that they wait for. The definitions that wait for one symbol are in
/// the order in which they came.
pub struct WaitingDefinitions {
    keys: Vec<String>,
    slots: Vec<Vec<RawDefinition>>,
    index: StringHashMap<usize>,
}

spec fn total(slots: Seq<Vec<RawDefinition>>) -> nat
    decreases slots.len(),
{
    if slots.len() == 0 {
        0
    } else {
        total(slots.drop_last()) + slots.last()@.len()
    }
}

proof fn lemma_total_update(slots: Seq<Vec<RawDefinition>>, at: int, slot: Vec<RawDefinition>)
    requires
        0 <= at < slots.len(),
    ensures
        total(slots.update(at, slot)) == total(slots) - slots[at]@.len() + slot@.len(),
        slots[at]@.len() <= total(slots),
    decreases slots.len(),
{
    let front = slots.drop_last();
    if at < slots.len() - 1 {
        lemma_total_update(front, at, slot);
        assert(slots.update(at, slot).drop_last() =~= front.update(at, slot));
    } else {
        assert(slots.update(at, slot).drop_last() =~= front);
    }
}

spec fn consistent(keys: Seq<String>, slots: nat, index: Map<Seq<char>, usize>) -> bool {
    &&& keys.len() == slots
    &&& forall|key: Seq<char>| #[trigger]
        index.contains_key(key) ==> index[key] < slots && keys[index[key] as int]@ == key
}

impl WaitingDefinitions {
    #[verifier::type_invariant]
    spec fn well_formed(self) -> bool {
        consistent(self.keys@, self.slots@.len(), self.index@)
    }

    /// The definitions that wait for each symbol.
    pub closed spec fn contents(self) -> Map<Seq<char>, Seq<DefinitionView>> {
        Map::new(
            |key: Seq<char>| self.index@.contains_key(key),
            |key: Seq<char>| definitions_view(self.slots@[self.index@[key] as int]@),
        )
    }

    /// How many definitions wait.
    pub closed spec fn count(self) -> nat {
        total(self.slots@)
    }

    /// Nothing waits.
    pub fn new() -> (r: WaitingDefinitions)
        ensures
            r@ == Map::<Seq<char>, Seq<DefinitionView>>::empty(),
            r.count() == 0,
    {
        let waiting = WaitingDefinitions {
            keys: Vec::new(),
            slots: Vec::new(),
            index: StringHashMap::new(),
        };
        assert(waiting@ =~= Map::empty());
        waiting
    }

    /// Lets a definition wait for the symbol `key`.
    pub fn push(&mut self, key: String, definition: RawDefinition)
        ensures
            final(self)@ == old(self)@.insert(
                key@,
                (if old(self)@.contains_key(key@) {
                    old(self)@[key@]
                } else {
                    Seq::empty()
                }).push(definition@),
            ),
            final(self).count() == old(self).count() + 1,
    {
        proof {
            use_type_invariant(&*self);
        }
        let mut taken = WaitingDefinitions::new();
        core::mem::swap(self, &mut taken);
        let WaitingDefinitions { mut keys, mut slots, mut index } = taken;
        let ghost old_slots = slots@;
        let ghost old_index = index@;
        let ghost name = key@;
        let found: Option<usize> = match index.get(key.as_str()) {
            Some(at) => Some(*at),
            None => None,
        };
        match found {
            Some(at) => {
                let mut slot: Vec<RawDefinition> = Vec::new();
                core::mem::swap(&mut slot, &mut slots[at]);
                let ghost before = definitions_view(slot@);
                slot.push(definition);
                assert(definitions_view(slot@) =~= before.push(definition@));
                slots.set(at, slot);
                proof {
                    assert(slots@ =~= old_slots.update(at as int, slot));
                    lemma_total_update(old_slots, at as int, slot);
                }
            },
            None => {
                let at: usize = keys.len();
                let mut slot: Vec<RawDefinition> = Vec::new();
                slot.push(definition);
                assert(definitions_view(slot@) =~= Seq::empty().push(definition@));
                index.insert(key.clone(), at);
                keys.push(key);
                slots.push(slot);
                assert(slots@.drop_last() =~= old_slots);
            },
        }
        *self = WaitingDefinitions { keys, slots, index };
        assert(self@ =~= old(self)@.insert(
            name,
            (if old(self)@.contains_key(name) {
                old(self)@[name]
            } else {
                Seq::empty()
            }).push(definition@),
        ));
    }

    /// Takes out the definitions that wait for the symbol `key`.
    pub fn take(&mut self, key: &str) -> (r: Option<Vec<RawDefinition>>)
        ensures
            match r {
                Some(definitions) => {
                    &&& old(self)@.contains_key(key@)
                    &&& definitions_view(definitions@) == old(self)@[key@]
                    &&& final(self)@ == old(self)@.remove(key@)
                    &&& final(self).count() == old(self).count() - definitions@.len()
                },
                None => {
                    &&& !old(self)@.contains_key(key@)
                    &&& final(self)@ == old(self)@
                    &&& final(self).count() == old(self).count()
                },
            },
    {
        proof {
            use_type_invariant(&*self);
        }
        let at: usize = match self.index.get(key) {
            Some(at) => *at,
            None => {
                return None;
            },
        };
        let mut taken = WaitingDefinitions::new();
        core::mem::swap(self, &mut taken);
        let WaitingDefinitions { keys, mut slots, mut index } = taken;
        let ghost old_slots = slots@;
        let ghost old_index = index@;
        let mut slot: Vec<RawDefinition> = Vec::new();
        core::mem::swap(&mut slot, &mut slots[at]);
        index.remove(key);
        proof {
            let empty = slots@[at as int];
            assert(slots@ =~= old_slots.update(at as int, empty));
            lemma_total_update(old_slots, at as int, empty);
            assert forall|other: Seq<char>| #[trigger] index@.contains_key(other) implies index@[other]
                != at by {
                assert(old_index.contains_key(other));
            }
        }
        *self = WaitingDefinitions { keys, slots, index };
        assert(self@ =~= old(self)@.remove(key@));
        Some(slot)
    }

    /// The definitions that wait for the symbol `key`.
    pub fn get(&self, key: &str) -> (r: Option<&Vec<RawDefinition>>)
        ensures
            match r {
                Some(definitions) => self@.contains_key(key@) && definitions_view(definitions@)
                    == self@[key@],
                None => !self@.contains_key(key@),
            },
    {
        proof {
            use_type_invariant(self);
        }
        match self.index.get(key) {
            Some(at) => Some(&self.slots[*at]),
            None => None,
        }
    }

    /// The symbols with the definitions that wait for them, each symbol once.
    pub fn into_entries(self) -> (r: Vec<(String, Vec<RawDefinition>)>)
        ensures
            entry_keys(r@).no_duplicates(),
            entry_keys(r@).to_set() == self@.dom(),
            forall|i: int|
                0 <= i < r@.len() ==> definitions_view((#[trigger] r@[i]).1@) == self@[r@[i].0@],
    {
        proof {
            use_type_invariant(&self);
        }
        let ghost contents = self@;
        let WaitingDefinitions { mut keys, mut slots, index } = self;
        let ghost old_keys = keys@;
        let ghost old_slots = slots@;
        let mut entries: Vec<(String, Vec<RawDefinition>)> = Vec::new();
        assert(entry_keys(entries@) =~= Seq::empty());
        while keys.len() > 0
            invariant
                consistent(old_keys, old_slots.len(), index@),
                keys@.len() == slots@.len(),
                keys@.len() <= old_keys.len(),
                old_keys.len() == old_slots.len(),
                keys@ == old_keys.take(keys@.len() as int),
                slots@ == old_slots.take(keys@.len() as int),
                contents.dom() == index@.dom(),
                forall|key: Seq<char>| #[trigger]
                    index@.contains_key(key) ==> contents[key] == definitions_view(
                        old_slots[index@[key] as int]@,
                    ),
                entry_keys(entries@).no_duplicates(),
                forall|key: Seq<char>| #[trigger]
                    entry_keys(entries@).contains(key) <==> index@.contains_key(key) && index@[key]
                        >= keys@.len(),
                forall|i: int|
                    0 <= i < entries@.len() ==> definitions_view((#[trigger] entries@[i]).1@)
                        == contents[entries@[i].0@],
            decreases keys@.len(),
        {
            let ghost count = keys@.len() as int;
            let ghost before = entry_keys(entries@);
            let ghost old_entries = entries@;
            let key: String = keys.pop().unwrap();
            let slot: Vec<RawDefinition> = slots.pop().unwrap();
            let live: bool = match index.get(key.as_str()) {
                Some(at) => *at == keys.len(),
                None => false,
            };
            if live {
                entries.push((key, slot));
                proof {
                    assert(entry_keys(entries@) =~= before.push(key@));
                    assert(!before.contains(key@));
                    assert forall|other: Seq<char>| #[trigger]
                        entry_keys(entries@).contains(other) <==> index@.contains_key(other)
                            && index@[other] >= keys@.len() by {
                        if entry_keys(entries@).contains(other) {
                            let i = choose|i: int|
                                0 <= i < entry_keys(entries@).len() && entry_keys(entries@)[i]
                                    == other;
                            if i < before.len() {
                                assert(before[i] == other);
                                assert(before.contains(other));
                            }
                        }
                        if index@.contains_key(other) && index@[other] >= keys@.len() {
                            if index@[other] >= count {
                                assert(before.contains(other));
                                let i = choose|i: int| 0 <= i < before.len() && before[i] == other;
                                assert(entry_keys(entries@)[i] == other);
                            } else {
                                assert(other == key@);
                                assert(entry_keys(entries@)[before.len() as int] == other);
                            }
                        }
                    }
                }
            } else {
                proof {
                    assert forall|other: Seq<char>| #[trigger]
                        entry_keys(entries@).contains(other) <==> index@.contains_key(other)
                            && index@[other] >= keys@.len() by {
                        if index@.contains_key(other) && index@[other] == keys@.len() {
                            assert(other == key@);
                        }
                    }
                }
            }
        }
        assert(entry_keys(entries@).to_set() =~= contents.dom());
        entries
    }
}

/// The symbols of entries, in order.
pub open spec fn entry_keys(entries: Seq<(String, Vec<RawDefinition>)>) -> Seq<Seq<char>> {
    entries.map_values(|entry: (String, Vec<RawDefinition>)| entry.0@)
}

impl View for WaitingDefinitions {
    type V = Map<Seq<char>, Seq<DefinitionView>>;

    /// The definitions that wait for each symbol.
    open spec fn view(&self) -> Map<Seq<char>, Seq<DefinitionView>> {
        self.contents()
    }
}

} // verus!
