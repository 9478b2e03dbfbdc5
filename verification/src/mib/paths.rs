//! The order in which files are loaded: that of their paths, component by component.

use vstd::prelude::*;

verus! {

/// The order of octets: by the first one that differs, a prefix before what continues it.
pub open spec fn octets_less(left: Seq<u8>, right: Seq<u8>) -> bool
    decreases left.len(),
{
    if right.len() == 0 {
        false
    } else if left.len() == 0 {
        true
    } else if left[0] != right[0] {
        left[0] < right[0]
    } else {
        octets_less(left.drop_first(), right.drop_first())
    }
}

proof fn lemma_octets_irreflexive(octets: Seq<u8>)
    ensures
        !octets_less(octets, octets),
    decreases octets.len(),
{
    if octets.len() > 0 {
        lemma_octets_irreflexive(octets.drop_first());
    }
}

proof fn lemma_octets_transitive(first: Seq<u8>, second: Seq<u8>, third: Seq<u8>)
    requires
        octets_less(first, second),
        octets_less(second, third),
    ensures
        octets_less(first, third),
    decreases first.len(),
{
    if first.len() > 0 && second.len() > 0 && third.len() > 0 && first[0] == second[0] && second[0]
        == third[0] {
        lemma_octets_transitive(first.drop_first(), second.drop_first(), third.drop_first());
    }
}

proof fn lemma_octets_total(left: Seq<u8>, right: Seq<u8>)
    ensures
        left == right || octets_less(left, right) || octets_less(right, left),
    decreases left.len(),
{
    if left.len() == 0 || right.len() == 0 {
        assert(left.len() == right.len() ==> left =~= right);
    } else if left[0] == right[0] {
        lemma_octets_total(left.drop_first(), right.drop_first());
        if left.drop_first() == right.drop_first() {
            assert(left =~= seq![left[0]] + left.drop_first());
            assert(right =~= seq![right[0]] + right.drop_first());
        }
    }
}

/// The order of paths: by the first component that differs, a directory before what it holds.
pub open spec fn path_less(left: Seq<Seq<u8>>, right: Seq<Seq<u8>>) -> bool
    decreases left.len(),
{
    if right.len() == 0 {
        false
    } else if left.len() == 0 {
        true
    } else if left[0] != right[0] {
        octets_less(left[0], right[0])
    } else {
        path_less(left.drop_first(), right.drop_first())
    }
}

/// No path precedes itself.
pub proof fn path_less_is_irreflexive(path: Seq<Seq<u8>>)
    ensures
        !path_less(path, path),
    decreases path.len(),
{
    if path.len() > 0 {
        path_less_is_irreflexive(path.drop_first());
    }
}

/// Of three paths in order the first precedes the last.
pub proof fn path_less_is_transitive(
    first: Seq<Seq<u8>>,
    second: Seq<Seq<u8>>,
    third: Seq<Seq<u8>>,
)
    requires
        path_less(first, second),
        path_less(second, third),
    ensures
        path_less(first, third),
    decreases first.len(),
{
    if first.len() > 0 {
        if first[0] != second[0] && second[0] != third[0] {
            lemma_octets_transitive(first[0], second[0], third[0]);
            lemma_octets_irreflexive(first[0]);
        } else if first[0] == second[0] && second[0] == third[0] {
            path_less_is_transitive(first.drop_first(), second.drop_first(), third.drop_first());
        }
    }
}

/// Of two different paths one precedes the other.
pub proof fn path_less_is_total(left: Seq<Seq<u8>>, right: Seq<Seq<u8>>)
    ensures
        left == right || path_less(left, right) || path_less(right, left),
    decreases left.len(),
{
    if left.len() == 0 || right.len() == 0 {
        assert(left.len() == right.len() ==> left =~= right);
    } else if left[0] == right[0] {
        path_less_is_total(left.drop_first(), right.drop_first());
        if left.drop_first() == right.drop_first() {
            assert(left =~= seq![left[0]] + left.drop_first());
            assert(right =~= seq![right[0]] + right.drop_first());
        }
    } else {
        lemma_octets_total(left[0], right[0]);
    }
}

/// What is common to two sequences of octets does not count for their order: the octets behind it
/// do, the lower one first, and an end before any octet.
pub proof fn octets_less_is_lexicographic(
    common: Seq<u8>,
    lower: u8,
    higher: u8,
    left: Seq<u8>,
    right: Seq<u8>,
)
    requires
        lower < higher,
    ensures
        octets_less(common + seq![lower] + left, common + seq![higher] + right),
        octets_less(common, common + seq![lower] + left),
    decreases common.len(),
{
    let less = common + seq![lower] + left;
    let more = common + seq![higher] + right;
    if common.len() > 0 {
        let rest = common.drop_first();
        octets_less_is_lexicographic(rest, lower, higher, left, right);
        assert(less.drop_first() =~= rest + seq![lower] + left);
        assert(more.drop_first() =~= rest + seq![higher] + right);
    }
}

/// What is common to two paths does not count for their order: the components behind it do, by
/// their octets, and a directory comes before what it holds.
pub proof fn path_less_is_lexicographic(
    common: Seq<Seq<u8>>,
    lower: Seq<u8>,
    higher: Seq<u8>,
    left: Seq<Seq<u8>>,
    right: Seq<Seq<u8>>,
)
    requires
        octets_less(lower, higher),
    ensures
        path_less(common + seq![lower] + left, common + seq![higher] + right),
        path_less(common, common + seq![lower] + left),
    decreases common.len(),
{
    let less = common + seq![lower] + left;
    let more = common + seq![higher] + right;
    if common.len() > 0 {
        let rest = common.drop_first();
        path_less_is_lexicographic(rest, lower, higher, left, right);
        assert(less.drop_first() =~= rest + seq![lower] + left);
        assert(more.drop_first() =~= rest + seq![higher] + right);
    } else {
        lemma_octets_irreflexive(lower);
    }
}

/// The components of a path.
pub open spec fn components(path: Seq<Vec<u8>>) -> Seq<Seq<u8>> {
    path.map_values(|component: Vec<u8>| component@)
}

/// Where two sequences of octets first differ.
fn common_octets(left: &[u8], right: &[u8]) -> (r: usize)
    ensures
        r <= left@.len(),
        r <= right@.len(),
        left@.take(r as int) == right@.take(r as int),
        r < left@.len() && r < right@.len() ==> left@[r as int] != right@[r as int],
        octets_less(left@, right@) == octets_less(left@.skip(r as int), right@.skip(r as int)),
{
    let mut index: usize = 0;
    assert(left@.skip(0) =~= left@);
    assert(right@.skip(0) =~= right@);
    while index < left.len() && index < right.len() && left[index] == right[index]
        invariant
            index <= left@.len(),
            index <= right@.len(),
            left@.take(index as int) == right@.take(index as int),
            octets_less(left@, right@) == octets_less(
                left@.skip(index as int),
                right@.skip(index as int),
            ),
        decreases left@.len() - index,
    {
        assert(left@.skip(index as int).drop_first() =~= left@.skip(index + 1));
        assert(right@.skip(index as int).drop_first() =~= right@.skip(index + 1));
        assert(left@.take(index + 1) =~= left@.take(index as int).push(left@[index as int]));
        assert(right@.take(index + 1) =~= right@.take(index as int).push(right@[index as int]));
        index += 1;
    }
    index
}

/// Whether two sequences of octets are the same, and whether the left one precedes the right one.
fn octets_order(left: &[u8], right: &[u8]) -> (r: (bool, bool))
    ensures
        r.0 == (left@ == right@),
        r.1 == octets_less(left@, right@),
{
    let index: usize = common_octets(left, right);
    let at_left_end: bool = index == left.len();
    let at_right_end: bool = index == right.len();
    proof {
        if at_left_end && at_right_end {
            assert(left@ =~= left@.take(index as int));
            assert(right@ =~= right@.take(index as int));
        }
    }
    (
        at_left_end && at_right_end,
        !at_right_end && (at_left_end || left[index] < right[index]),
    )
}

/// Whether the left path precedes the right one.
pub fn path_precedes(left: &Vec<Vec<u8>>, right: &Vec<Vec<u8>>) -> (r: bool)
    ensures
        r == path_less(components(left@), components(right@)),
{
    let ghost first = components(left@);
    let ghost second = components(right@);
    let mut index: usize = 0;
    assert(first.skip(0) =~= first);
    assert(second.skip(0) =~= second);
    while index < left.len() && index < right.len()
        invariant
            first == components(left@),
            second == components(right@),
            index <= left@.len(),
            index <= right@.len(),
            path_less(first, second) == path_less(
                first.skip(index as int),
                second.skip(index as int),
            ),
        decreases left@.len() - index,
    {
        assert(first.skip(index as int)[0] == left@[index as int]@);
        assert(second.skip(index as int)[0] == right@[index as int]@);
        let (same, precedes) = octets_order(left[index].as_slice(), right[index].as_slice());
        if !same {
            return precedes;
        }
        assert(first.skip(index as int).drop_first() =~= first.skip(index + 1));
        assert(second.skip(index as int).drop_first() =~= second.skip(index + 1));
        index += 1;
    }
    index < right.len()
}

} // verus!
