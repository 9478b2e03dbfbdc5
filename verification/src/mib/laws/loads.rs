//! What a load names, from the files on.

use crate::mib::laws::builtins::builtin_names_are_proper;
use crate::mib::laws::meaning::{
    definitions_name_what_they_spell, has_value, is_named_or_waits, names_are_spelled,
};
use crate::mib::laws::names_are_kept;
use crate::mib::load::{
    all_loadable, gathered, loads_to, no_file_is_forgotten, samples,
    unresolved_symbols_are_warned_of, MibSource, WarningView,
};
use crate::mib::parser::{file_definitions, DefinitionView};
use crate::mib::resolver::builtin_names;
use crate::mib::state::{lists, resolve_to};
use crate::mib::table::SymbolView;
use vstd::prelude::*;

verus! {

/// A warning tells that definitions refer to the symbol.
pub open spec fn is_warned_of(warnings: Seq<WarningView>, symbol: Seq<char>) -> bool {
    exists|i: int|
        0 <= i < warnings.len() && (#[trigger] warnings[i]) is Unresolved && warnings[i]->symbol
            == symbol
}

/// Where nothing fails the load, every name stems from the builtin ones or from the definitions of
/// the files, and is of what these spell. Every definition of every file of every path names what it
/// spells, or the symbol that it waits for is warned of.
pub proof fn loads_name_what_the_files_define(
    paths: Seq<Result<Vec<MibSource>, String>>,
    names: Map<Seq<u32>, SymbolView>,
    warnings: Seq<WarningView>,
    i: int,
    j: int,
    definition: DefinitionView,
)
    requires
        all_loadable(paths),
        loads_to(gathered(paths), names, warnings),
        0 <= i < paths.len(),
        0 <= j < paths[i]->Ok_0@.len(),
        paths[i]->Ok_0@[j].contents is Ok,
        file_definitions(paths[i]->Ok_0@[j].contents->Ok_0@).contains(definition),
        has_value(definition.elements),
    ensures
        builtin_names().dom().subset_of(names.dom()),
        names_are_spelled(names, builtin_names(), gathered(paths).definitions),
        exists|unresolved: Map<Seq<char>, Seq<DefinitionView>>|
            {
                &&& #[trigger] is_named_or_waits(
                    definition,
                    builtin_names(),
                    gathered(paths).definitions,
                    names,
                    unresolved,
                )
                &&& forall|symbol: Seq<char>| #[trigger]
                    unresolved.contains_key(symbol) ==> is_warned_of(warnings, symbol)
            },
{
    let files = gathered(paths);
    no_file_is_forgotten(paths, i, j, definition);
    builtin_names_are_proper();
    unresolved_symbols_are_warned_of(files, names, warnings);
    let (unresolved, order) = choose|
        unresolved: Map<Seq<char>, Seq<DefinitionView>>,
        order: Seq<Seq<char>>,
    |
        {
            &&& #[trigger] resolve_to(builtin_names(), files.definitions, names, unresolved)
            &&& #[trigger] lists(order, unresolved)
            &&& warnings.len() == files.warnings.len() + order.len()
            &&& forall|i: int|
                0 <= i < order.len() ==> {
                    let warning = #[trigger] warnings[files.warnings.len() + i];
                    &&& warning is Unresolved
                    &&& warning->symbol == order[i]
                    &&& warning->affected_definitions == unresolved[order[i]].len()
                    &&& samples(warning->sample, unresolved[order[i]])
                }
        };
    names_are_kept(builtin_names(), files.definitions, names, unresolved);
    definitions_name_what_they_spell(
        builtin_names(),
        files.definitions,
        names,
        unresolved,
        definition,
    );
    assert forall|symbol: Seq<char>| #[trigger] unresolved.contains_key(symbol) implies
        is_warned_of(warnings, symbol) by {
        assert(order.to_set().contains(symbol));
        let place = choose|place: int| 0 <= place < order.len() && order[place] == symbol;
        let warning = warnings[files.warnings.len() + place];
        assert(warning is Unresolved && warning->symbol == symbol);
    }
    assert(is_named_or_waits(
        definition,
        builtin_names(),
        files.definitions,
        names,
        unresolved,
    ));
}

} // verus!
