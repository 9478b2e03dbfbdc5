//! What is known without any module.

use crate::mib::resolver::builtin_names;
use crate::notification::generic_trap_name;
use vstd::prelude::*;
use vstd::string::*;

verus! {

/// The object identifier of the notification that stands for a generic trap: the number behind
/// `snmpTraps`, counted from one.
pub open spec fn generic_notification(number: int) -> Seq<u32> {
    seq![1u32, 3, 6, 1, 6, 3, 1, 1, 5, (number + 1) as u32]
}

/// There are finitely many names to start with, and none of them is of no arcs.
pub proof fn builtin_names_are_proper()
    ensures
        builtin_names().dom().finite(),
        !builtin_names().contains_key(Seq::empty()),
{
    lemma_arcs(Seq::empty());
}

proof fn lemma_arcs(oid: Seq<u32>)
    ensures
        builtin_names().contains_key(oid) ==> oid.len() > 0,
{
    if builtin_names().contains_key(oid) {
        assert(oid.len() > 0);
    }
}

/// The notifications that stand for the generic traps are named as the traps are.
pub proof fn generic_traps_are_known(number: u8)
    requires
        number < 5,
    ensures
        builtin_names().contains_key(generic_notification(number as int)),
        builtin_names()[generic_notification(number as int)].name == generic_trap_name(number),
{
    let names = builtin_names();
    let oid = generic_notification(number as int);
    if number == 0 {
        assert(oid =~= seq![1u32, 3, 6, 1, 6, 3, 1, 1, 5, 1]);
    } else if number == 1 {
        assert(oid =~= seq![1u32, 3, 6, 1, 6, 3, 1, 1, 5, 2]);
    } else if number == 2 {
        assert(oid =~= seq![1u32, 3, 6, 1, 6, 3, 1, 1, 5, 3]);
    } else if number == 3 {
        assert(oid =~= seq![1u32, 3, 6, 1, 6, 3, 1, 1, 5, 4]);
    } else {
        assert(oid =~= seq![1u32, 3, 6, 1, 6, 3, 1, 1, 5, 5]);
    }
    assert(oid[9] == number + 1);
}

/// Of all that is known to start with, the time since the start and the object identifier of a
/// notification alone have instances.
pub proof fn scalars_alone_have_instances(oid: Seq<u32>)
    ensures
        builtin_names().contains_key(oid) ==> (builtin_names()[oid].prefix_resolves <==> oid
            == seq![1u32, 3, 6, 1, 2, 1, 1, 3] || oid == seq![1u32, 3, 6, 1, 6, 3, 1, 1, 4, 1]),
        builtin_names().contains_key(seq![1u32, 3, 6, 1, 2, 1, 1, 3]),
        builtin_names().contains_key(seq![1u32, 3, 6, 1, 6, 3, 1, 1, 4, 1]),
        builtin_names().contains_key(oid) && oid.len() > 1 && oid.len() <= 6
            ==> builtin_names().contains_key(oid.drop_last()),
{
    let up_time = seq![1u32, 3, 6, 1, 2, 1, 1, 3];
    let trap_oid = seq![1u32, 3, 6, 1, 6, 3, 1, 1, 4, 1];
    assert(up_time.len() == 8 && trap_oid.len() == 10 && trap_oid[8] == 4);
    if builtin_names().contains_key(oid) && oid.len() > 1 && oid.len() <= 6 {
        let parent = oid.drop_last();
        if oid.len() == 2 {
            assert(parent =~= seq![1u32]);
        } else if oid.len() == 3 {
            assert(parent =~= seq![1u32, 3]);
        } else if oid.len() == 4 {
            assert(parent =~= seq![1u32, 3, 6]);
        } else if oid.len() == 5 {
            assert(parent =~= seq![1u32, 3, 6, 1]);
        } else if oid[4] == 2 {
            assert(parent =~= seq![1u32, 3, 6, 1, 2]);
        } else if oid[4] == 4 {
            assert(parent =~= seq![1u32, 3, 6, 1, 4]);
        } else {
            assert(parent =~= seq![1u32, 3, 6, 1, 6]);
        }
    }
}

} // verus!
