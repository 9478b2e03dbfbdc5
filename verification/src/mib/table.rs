//! Names of object identifiers, kept in the order of the identifiers.

use crate::text::opt_text;
use vstd::prelude::*;

verus! {

/// A named object identifier.
#[derive(Clone, Debug)]
pub struct MibSymbol {
    pub module: Option<String>,
    pub name: String,
    /// Whether an identifier that continues this one is an instance of it.
    pub prefix_resolves: bool,
}

/// A [`MibSymbol`] as characters.
pub ghost struct SymbolView {
    pub module: Option<Seq<char>>,
    pub name: Seq<char>,
    pub prefix_resolves: bool,
}

impl View for MibSymbol {
    type V = SymbolView;

    open spec fn view(&self) -> SymbolView {
        SymbolView {
            module: opt_text(self.module),
            name: self.name@,
            prefix_resolves: self.prefix_resolves,
        }
    }
}

/// The order of object identifiers: by the first arc that differs, a prefix before what continues
/// it.
pub open spec fn oid_less(left: Seq<u32>, right: Seq<u32>) -> bool
    decreases left.len(),
{
    if right.len() == 0 {
        false
    } else if left.len() == 0 {
        true
    } else if left[0] != right[0] {
        left[0] < right[0]
    } else {
        oid_less(left.drop_first(), right.drop_first())
    }
}

/// No object identifier precedes itself.
pub proof fn oid_less_is_irreflexive(oid: Seq<u32>)
    ensures
        !oid_less(oid, oid),
    decreases oid.len(),
{
    if oid.len() > 0 {
        oid_less_is_irreflexive(oid.drop_first());
    }
}

/// Of three object identifiers in order the first precedes the last.
pub proof fn oid_less_is_transitive(first: Seq<u32>, second: Seq<u32>, third: Seq<u32>)
    requires
        oid_less(first, second),
        oid_less(second, third),
    ensures
        oid_less(first, third),
    decreases first.len(),
{
    if first.len() > 0 && second.len() > 0 && third.len() > 0 && first[0] == second[0] && second[0]
        == third[0] {
        oid_less_is_transitive(first.drop_first(), second.drop_first(), third.drop_first());
    }
}

/// Of two different object identifiers one precedes the other.
pub proof fn oid_less_is_total(left: Seq<u32>, right: Seq<u32>)
    ensures
        left == right || oid_less(left, right) || oid_less(right, left),
    decreases left.len(),
{
    if left.len() == 0 || right.len() == 0 {
        assert(left.len() == right.len() ==> left =~= right);
    } else if left[0] == right[0] {
        oid_less_is_total(left.drop_first(), right.drop_first());
        if left.drop_first() == right.drop_first() {
            assert(left =~= seq![left[0]] + left.drop_first());
            assert(right =~= seq![right[0]] + right.drop_first());
        }
    }
}

/// What is common to two object identifiers does not count for their order: the arcs behind it do,
/// the lower one first, and an end before any arc.
pub proof fn oid_less_is_lexicographic(
    common: Seq<u32>,
    lower: u32,
    higher: u32,
    left: Seq<u32>,
    right: Seq<u32>,
)
    requires
        lower < higher,
    ensures
        oid_less(common + seq![lower] + left, common + seq![higher] + right),
        oid_less(common, common + seq![lower] + left),
    decreases common.len(),
{
    let less = common + seq![lower] + left;
    let more = common + seq![higher] + right;
    if common.len() > 0 {
        let rest = common.drop_first();
        oid_less_is_lexicographic(rest, lower, higher, left, right);
        assert(less.drop_first() =~= rest + seq![lower] + left);
        assert(more.drop_first() =~= rest + seq![higher] + right);
    }
}

/// How two object identifiers stand to each other.
#[derive(Clone, Copy, Debug, PartialEq, Eq, Structural)]
enum OidOrder {
    Before,
    Same,
    Behind,
}

fn oid_order(left: &[u32], right: &[u32]) -> (r: OidOrder)
    ensures
        match r {
            OidOrder::Before => oid_less(left@, right@),
            OidOrder::Same => left@ == right@,
            OidOrder::Behind => oid_less(right@, left@),
        },
{
    let mut index: usize = 0;
    assert(left@.skip(0) =~= left@);
    assert(right@.skip(0) =~= right@);
    while index < left.len() && index < right.len() && left[index] == right[index]
        invariant
            index <= left@.len(),
            index <= right@.len(),
            left@.take(index as int) == right@.take(index as int),
            oid_less(left@, right@) == oid_less(
                left@.skip(index as int),
                right@.skip(index as int),
            ),
            oid_less(right@, left@) == oid_less(
                right@.skip(index as int),
                left@.skip(index as int),
            ),
        decreases left@.len() - index,
    {
        assert(left@.skip(index as int).drop_first() =~= left@.skip(index + 1));
        assert(right@.skip(index as int).drop_first() =~= right@.skip(index + 1));
        assert(left@.take(index + 1) =~= left@.take(index as int).push(left@[index as int]));
        assert(right@.take(index + 1) =~= right@.take(index as int).push(right@[index as int]));
        index += 1;
    }
    if index == left.len() {
        if index == right.len() {
            assert(left@.take(index as int) =~= left@);
            assert(right@.take(index as int) =~= right@);
            OidOrder::Same
        } else {
            OidOrder::Before
        }
    } else if index == right.len() {
        OidOrder::Behind
    } else if left[index] < right[index] {
        OidOrder::Before
    } else {
        OidOrder::Behind
    }
}

#[derive(Clone, Debug)]
struct OidEntry {
    oid: Vec<u32>,
    symbol: MibSymbol,
}

/// A table from object identifiers to their names, in the order of the identifiers.
#[derive(Debug)]
pub struct OidTable {
    entries: Vec<OidEntry>,
}

spec fn sorted(entries: Seq<OidEntry>) -> bool {
    forall|i: int, j: int|
        #![trigger entries[i], entries[j]]
        0 <= i < j < entries.len() ==> oid_less(entries[i].oid@, entries[j].oid@)
}

spec fn listed(entries: Seq<OidEntry>) -> Seq<(Seq<u32>, SymbolView)> {
    entries.map_values(|entry: OidEntry| (entry.oid@, entry.symbol@))
}

/// The names that a listing gives to object identifiers.
pub open spec fn listing_map(listing: Seq<(Seq<u32>, SymbolView)>) -> Map<Seq<u32>, SymbolView> {
    Map::new(
        |oid: Seq<u32>| exists|i: int| 0 <= i < listing.len() && #[trigger] listing[i].0 == oid,
        |oid: Seq<u32>|
            listing[choose|i: int| 0 <= i < listing.len() && #[trigger] listing[i].0 == oid].1,
    )
}

/// A listing is in the order of the object identifiers and lists none twice.
pub open spec fn in_order(listing: Seq<(Seq<u32>, SymbolView)>) -> bool {
    forall|i: int, j: int|
        #![trigger listing[i], listing[j]]
        0 <= i < j < listing.len() ==> oid_less(listing[i].0, listing[j].0)
}

/// In a listing that is in order each object identifier has the name listed with it.
pub proof fn lemma_listing_map(listing: Seq<(Seq<u32>, SymbolView)>, index: int)
    requires
        in_order(listing),
        0 <= index < listing.len(),
    ensures
        listing_map(listing).contains_key(listing[index].0),
        listing_map(listing)[listing[index].0] == listing[index].1,
{
    let oid = listing[index].0;
    let found = choose|i: int| 0 <= i < listing.len() && #[trigger] listing[i].0 == oid;
    assert(0 <= found < listing.len() && listing[found].0 == oid);
    oid_less_is_irreflexive(oid);
    assert(found == index);
}

/// A listing names finitely many object identifiers.
pub proof fn listings_are_finite(listing: Seq<(Seq<u32>, SymbolView)>)
    ensures
        listing_map(listing).dom().finite(),
{
    broadcast use vstd::seq_lib::seq_to_set_is_finite;

    let oids = listing.map_values(|entry: (Seq<u32>, SymbolView)| entry.0);
    assert forall|oid: Seq<u32>| #[trigger]
        listing_map(listing).dom().contains(oid) implies oids.to_set().contains(oid) by {
        let at = choose|i: int| 0 <= i < listing.len() && #[trigger] listing[i].0 == oid;
        assert(oids[at] == oid);
    }
    vstd::set_lib::lemma_set_subset_finite(oids.to_set(), listing_map(listing).dom());
}

/// Replacing the name of a listed object identifier renames that one alone.
proof fn lemma_replaced(before: Seq<OidEntry>, entries: Seq<OidEntry>, index: int)
    requires
        sorted(before),
        0 <= index < before.len(),
        entries.len() == before.len(),
        entries == before.update(index, entries[index]),
        entries[index].oid@ == before[index].oid@,
    ensures
        sorted(entries),
        listing_map(listed(entries)) == listing_map(listed(before)).insert(
            entries[index].oid@,
            entries[index].symbol@,
        ),
{
    let listing = listed(before);
    let key = entries[index].oid@;
    let name = entries[index].symbol@;
    let after = listed(entries);
    assert(in_order(listing));
    assert(in_order(after)) by {
        assert forall|i: int, j: int|
            #![trigger after[i], after[j]]
            0 <= i < j < after.len() implies oid_less(after[i].0, after[j].0) by {
            assert(after[i].0 == listing[i].0 && after[j].0 == listing[j].0);
        }
    }
    assert(sorted(entries)) by {
        assert forall|i: int, j: int|
            #![trigger entries[i], entries[j]]
            0 <= i < j < entries.len() implies oid_less(
            entries[i].oid@,
            entries[j].oid@,
        ) by {
            assert(oid_less(after[i].0, after[j].0));
        }
    }
    assert forall|other: Seq<u32>| #[trigger]
        listing_map(after).contains_key(other) <==> listing_map(
            listing,
        ).contains_key(other) || other == key by {
        if listing_map(after).contains_key(other) {
            let i = choose|i: int|
                0 <= i < after.len() && #[trigger] after[i].0 == other;
            assert(listing[i].0 == other);
        }
        if listing_map(listing).contains_key(other) {
            let i = choose|i: int|
                0 <= i < listing.len() && #[trigger] listing[i].0 == other;
            assert(after[i].0 == other);
        }
        if other == key {
            assert(after[index].0 == other);
        }
    }
    assert forall|other: Seq<u32>| #[trigger]
        listing_map(after).contains_key(other) implies listing_map(after)[other]
        == (if other == key {
        name
    } else {
        listing_map(listing)[other]
    }) by {
        let i = choose|i: int|
            0 <= i < after.len() && #[trigger] after[i].0 == other;
        lemma_listing_map(after, i);
        lemma_listing_map(listing, i);
        lemma_listing_map(after, index);
    }
    assert(listing_map(after) =~= listing_map(listing).insert(key, name));
}

/// Inserting an object identifier in its place names that one besides the others.
proof fn lemma_inserted(before: Seq<OidEntry>, entries: Seq<OidEntry>, index: int)
    requires
        sorted(before),
        0 <= index <= before.len(),
        entries.len() == before.len() + 1,
        entries == before.insert(index, entries[index]),
        forall|i: int| 0 <= i < index ==> oid_less(#[trigger] before[i].oid@, entries[index].oid@),
        forall|i: int|
            index <= i < before.len() ==> oid_less(entries[index].oid@, #[trigger] before[i].oid@),
    ensures
        sorted(entries),
        listing_map(listed(entries)) == listing_map(listed(before)).insert(
            entries[index].oid@,
            entries[index].symbol@,
        ),
{
    let listing = listed(before);
    let key = entries[index].oid@;
    let name = entries[index].symbol@;
    let after = listed(entries);
    assert(in_order(listing));
    assert(after =~= listing.insert(index, (key, name)));
    assert(in_order(after)) by {
        assert forall|i: int, j: int|
            #![trigger after[i], after[j]]
            0 <= i < j < after.len() implies oid_less(after[i].0, after[j].0) by {
            if i < index {
                assert(after[i] == listing[i]);
                assert(oid_less(before[i].oid@, key));
            } else if i > index {
                assert(after[i] == listing[i - 1]);
            }
            if j < index {
                assert(after[j] == listing[j]);
            } else if j > index {
                assert(after[j] == listing[j - 1]);
                assert(oid_less(key, before[j - 1].oid@));
            }
        }
    }
    assert(sorted(entries)) by {
        assert forall|i: int, j: int|
            #![trigger entries[i], entries[j]]
            0 <= i < j < entries.len() implies oid_less(
            entries[i].oid@,
            entries[j].oid@,
        ) by {
            assert(oid_less(after[i].0, after[j].0));
        }
    }
    assert forall|other: Seq<u32>| #[trigger]
        listing_map(after).contains_key(other) <==> listing_map(
            listing,
        ).contains_key(other) || other == key by {
        if listing_map(after).contains_key(other) && other != key {
            let i = choose|i: int|
                0 <= i < after.len() && #[trigger] after[i].0 == other;
            if i < index {
                assert(listing[i].0 == other);
            } else {
                assert(listing[i - 1].0 == other);
            }
        }
        if listing_map(listing).contains_key(other) {
            let i = choose|i: int|
                0 <= i < listing.len() && #[trigger] listing[i].0 == other;
            if i < index {
                assert(after[i].0 == other);
            } else {
                assert(after[i + 1].0 == other);
            }
        }
        if other == key {
            assert(after[index].0 == other);
        }
    }
    assert forall|other: Seq<u32>| #[trigger]
        listing_map(after).contains_key(other) implies listing_map(after)[other]
        == (if other == key {
        name
    } else {
        listing_map(listing)[other]
    }) by {
        let i = choose|i: int|
            0 <= i < after.len() && #[trigger] after[i].0 == other;
        lemma_listing_map(after, i);
        lemma_listing_map(after, index);
        if i < index {
            lemma_listing_map(listing, i);
        } else if i > index {
            lemma_listing_map(listing, i - 1);
        }
    }
    assert(listing_map(after) =~= listing_map(listing).insert(key, name));
}

impl OidTable {
    #[verifier::type_invariant]
    spec fn well_formed(self) -> bool {
        sorted(self.entries@)
    }

    /// The object identifiers with their names, in order.
    pub closed spec fn listing(self) -> Seq<(Seq<u32>, SymbolView)> {
        listed(self.entries@)
    }

    /// A table without names.
    pub fn new() -> (r: OidTable)
        ensures
            r@ == Map::<Seq<u32>, SymbolView>::empty(),
    {
        let table = OidTable { entries: Vec::new() };
        assert(table@ =~= Map::empty());
        table
    }

    fn search(&self, oid: &[u32]) -> (r: Result<usize, usize>)
        ensures
            match r {
                Ok(index) => index < self.entries@.len() && self.entries@[index as int].oid@
                    == oid@,
                Err(index) => {
                    &&& index <= self.entries@.len()
                    &&& forall|i: int|
                        0 <= i < index ==> oid_less(#[trigger] self.entries@[i].oid@, oid@)
                    &&& forall|i: int|
                        index <= i < self.entries@.len() ==> oid_less(
                            oid@,
                            #[trigger] self.entries@[i].oid@,
                        )
                },
            },
    {
        proof {
            use_type_invariant(self);
        }
        let mut low: usize = 0;
        let mut high: usize = self.entries.len();
        while low < high
            invariant
                sorted(self.entries@),
                low <= high <= self.entries@.len(),
                forall|i: int| 0 <= i < low ==> oid_less(#[trigger] self.entries@[i].oid@, oid@),
                forall|i: int|
                    high <= i < self.entries@.len() ==> oid_less(
                        oid@,
                        #[trigger] self.entries@[i].oid@,
                    ),
            decreases high - low,
        {
            let middle: usize = low + (high - low) / 2;
            match oid_order(self.entries[middle].oid.as_slice(), oid) {
                OidOrder::Same => {
                    return Ok(middle);
                },
                OidOrder::Before => {
                    proof {
                        assert forall|i: int| 0 <= i < middle + 1 implies oid_less(
                            #[trigger] self.entries@[i].oid@,
                            oid@,
                        ) by {
                            if i < middle {
                                oid_less_is_transitive(
                                    self.entries@[i].oid@,
                                    self.entries@[middle as int].oid@,
                                    oid@,
                                );
                            }
                        }
                    }
                    low = middle + 1;
                },
                OidOrder::Behind => {
                    proof {
                        assert forall|i: int| middle <= i < self.entries@.len() implies oid_less(
                            oid@,
                            #[trigger] self.entries@[i].oid@,
                        ) by {
                            if middle < i {
                                oid_less_is_transitive(
                                    oid@,
                                    self.entries@[middle as int].oid@,
                                    self.entries@[i].oid@,
                                );
                            }
                        }
                    }
                    high = middle;
                },
            }
        }
        Err(low)
    }

    /// The name of an object identifier.
    pub fn get(&self, oid: &[u32]) -> (r: Option<&MibSymbol>)
        ensures
            match r {
                Some(symbol) => self@.contains_key(oid@) && symbol@ == self@[oid@],
                None => !self@.contains_key(oid@),
            },
    {
        proof {
            use_type_invariant(self);
        }
        match self.search(oid) {
            Ok(index) => {
                proof {
                    assert(in_order(self.listing()));
                    lemma_listing_map(self.listing(), index as int);
                }
                Some(&self.entries[index].symbol)
            },
            Err(index) => {
                proof {
                    if self@.contains_key(oid@) {
                        let i = choose|i: int|
                            0 <= i < self.listing().len() && #[trigger] self.listing()[i].0 == oid@;
                        assert(self.entries@[i].oid@ == oid@);
                        oid_less_is_irreflexive(oid@);
                    }
                }
                None
            },
        }
    }

    /// Names an object identifier, in place of any name that it had.
    pub fn insert(&mut self, oid: Vec<u32>, symbol: MibSymbol)
        ensures
            final(self)@ == old(self)@.insert(oid@, symbol@),
    {
        proof {
            use_type_invariant(&*self);
        }
        let found = self.search(oid.as_slice());
        let mut entries: Vec<OidEntry> = Vec::new();
        core::mem::swap(&mut entries, &mut self.entries);
        let ghost before = entries@;
        match found {
            Ok(index) => {
                entries.set(index, OidEntry { oid, symbol });
                proof {
                    lemma_replaced(before, entries@, index as int);
                }
            },
            Err(index) => {
                entries.insert(index, OidEntry { oid, symbol });
                proof {
                    lemma_inserted(before, entries@, index as int);
                }
            },
        }
        self.entries = entries;
    }

    /// The number of named object identifiers.
    pub fn len(&self) -> (r: usize)
        ensures
            r == self.listing().len(),
            in_order(self.listing()),
            self@ == listing_map(self.listing()),
    {
        proof {
            use_type_invariant(self);
            assert(in_order(self.listing()));
        }
        self.entries.len()
    }

    /// The object identifier at a place of the listing, and its name.
    pub fn at(&self, index: usize) -> (r: (&Vec<u32>, &MibSymbol))
        requires
            index < self.listing().len(),
        ensures
            (r.0@, r.1@) == self.listing()[index as int],
    {
        (&self.entries[index].oid, &self.entries[index].symbol)
    }
}

impl View for OidTable {
    type V = Map<Seq<u32>, SymbolView>;

    /// The name of each object identifier.
    open spec fn view(&self) -> Map<Seq<u32>, SymbolView> {
        listing_map(self.listing())
    }
}

} // verus!
