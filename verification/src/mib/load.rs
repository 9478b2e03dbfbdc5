//! Loading a resolver from MIB files.

use crate::mib::parser::{
    definitions_view, file_definitions, parse_definitions, DefinitionView, RawDefinition,
};
use crate::mib::resolver::{builtin_names, MibResolver};
use crate::mib::state::{lists, qualified, qualified_name, resolve_to};
use crate::mib::table::SymbolView;
use crate::mib::waiting::{entry_keys, WaitingDefinitions};
use crate::text::{decimal, render_decimal, signed_numerals_read_back, texts, writes_integer};
use vstd::prelude::*;
use vstd::string::*;

verus! {

/// A MIB file as far as it could be read.
pub struct MibSource {
    pub path: String,
    /// Whether failing to read the file fails the whole.
    pub required: bool,
    pub contents: Result<String, String>,
}

/// Something that a load goes on in spite of.
#[derive(Clone, Debug, PartialEq, Eq)]
pub enum MibWarning {
    /// The file produced no definitions; names from it will not resolve.
    NoDefinitions { path: String },
    /// The file, found while scanning a directory, could not be read.
    Unreadable { path: String, error: String },
    /// Definitions refer to a symbol that nothing defines; the affected names will not resolve.
    Unresolved { symbol: String, affected_definitions: usize, sample: Vec<String> },
}

/// A [`MibWarning`] as mathematical values.
pub ghost enum WarningView {
    NoDefinitions { path: Seq<char> },
    Unreadable { path: Seq<char>, error: Seq<char> },
    Unresolved { symbol: Seq<char>, affected_definitions: nat, sample: Seq<Seq<char>> },
}

impl View for MibWarning {
    type V = WarningView;

    open spec fn view(&self) -> WarningView {
        match self {
            MibWarning::NoDefinitions { path } => WarningView::NoDefinitions { path: path@ },
            MibWarning::Unreadable { path, error } => WarningView::Unreadable {
                path: path@,
                error: error@,
            },
            MibWarning::Unresolved { symbol, affected_definitions, sample } => {
                WarningView::Unresolved {
                    symbol: symbol@,
                    affected_definitions: *affected_definitions as nat,
                    sample: texts(sample@),
                }
            },
        }
    }
}

pub open spec fn warnings_view(warnings: Seq<MibWarning>) -> Seq<WarningView> {
    warnings.map_values(|warning: MibWarning| warning@)
}

/// What has been gathered from files.
#[verifier::ext_equal]
pub ghost struct Gathered {
    pub definitions: Seq<DefinitionView>,
    pub warnings: Seq<WarningView>,
    /// The error that ended the gathering.
    pub error: Option<Seq<char>>,
}

impl Gathered {
    /// After one more file. Nothing is gathered behind an error.
    pub open spec fn with_file(self, source: MibSource) -> Gathered {
        if self.error is Some {
            self
        } else {
            match source.contents {
                Ok(contents) => {
                    let parsed = file_definitions(contents@);
                    Gathered {
                        definitions: self.definitions + parsed,
                        warnings: if parsed.len() == 0 {
                            self.warnings.push(
                                WarningView::NoDefinitions { path: source.path@ },
                            )
                        } else {
                            self.warnings
                        },
                        error: None,
                    }
                },
                Err(error) => if source.required {
                    Gathered { error: Some(error@), ..self }
                } else {
                    Gathered {
                        warnings: self.warnings.push(
                            WarningView::Unreadable { path: source.path@, error: error@ },
                        ),
                        ..self
                    }
                },
            }
        }
    }

    /// After more files.
    pub open spec fn with_files(self, sources: Seq<MibSource>) -> Gathered
        decreases sources.len(),
    {
        if sources.len() == 0 {
            self
        } else {
            self.with_files(sources.drop_last()).with_file(sources.last())
        }
    }

    /// After the files of more paths. A path that cannot be loaded is an error.
    pub open spec fn with_paths(self, paths: Seq<Result<Vec<MibSource>, String>>) -> Gathered
        decreases paths.len(),
    {
        if paths.len() == 0 {
            self
        } else {
            let before = self.with_paths(paths.drop_last());
            match paths.last() {
                Ok(sources) => before.with_files(sources@),
                Err(error) => if before.error is Some {
                    before
                } else {
                    Gathered { error: Some(error@), ..before }
                },
            }
        }
    }
}

/// What the files of the paths give.
pub open spec fn gathered(paths: Seq<Result<Vec<MibSource>, String>>) -> Gathered {
    Gathered { definitions: Seq::empty(), warnings: Seq::empty(), error: None }.with_paths(paths)
}

/// The name that a definition is reported by.
pub open spec fn reported_name(definition: DefinitionView) -> Seq<char> {
    match definition.module {
        Some(module) => qualified(module, definition.name),
        None => definition.name,
    }
}

/// The names of the first five definitions, and how many more there are.
pub open spec fn reported_sample(definitions: Seq<DefinitionView>) -> Seq<Seq<char>> {
    if definitions.len() <= 5 {
        definitions.map_values(|definition: DefinitionView| reported_name(definition))
    } else {
        definitions.take(5).map_values(
            |definition: DefinitionView| reported_name(definition),
        ).push("... and "@ + decimal((definitions.len() - 5) as nat) + " more"@)
    }
}

/// The warning for the definitions that wait for a symbol.
pub open spec fn unresolved_warning(
    symbol: Seq<char>,
    definitions: Seq<DefinitionView>,
) -> WarningView {
    WarningView::Unresolved {
        symbol,
        affected_definitions: definitions.len(),
        sample: reported_sample(definitions),
    }
}

/// The warnings for unresolved symbols, in the given order.
pub open spec fn unresolved_warnings(
    unresolved: Map<Seq<char>, Seq<DefinitionView>>,
    order: Seq<Seq<char>>,
) -> Seq<WarningView> {
    order.map_values(|symbol: Seq<char>| unresolved_warning(symbol, unresolved[symbol]))
}

/// How a load ends without an error: the names extend the builtin ones by the definitions, and each
/// symbol that is left unresolved is warned of.
pub open spec fn loads_to(
    files: Gathered,
    names: Map<Seq<u32>, SymbolView>,
    warnings: Seq<WarningView>,
) -> bool {
    exists|unresolved: Map<Seq<char>, Seq<DefinitionView>>, order: Seq<Seq<char>>|
        {
            &&& #[trigger] resolve_to(builtin_names(), files.definitions, names, unresolved)
            &&& #[trigger] lists(order, unresolved)
            &&& warnings == files.warnings + unresolved_warnings(unresolved, order)
        }
}

/// The names of the first five definitions, and how many more there are.
pub fn unresolved_sample(definitions: &Vec<RawDefinition>) -> (r: Vec<String>)
    ensures
        texts(r@) == reported_sample(definitions_view(definitions@)),
{
    let mut sample: Vec<String> = Vec::new();
    let ghost all = definitions_view(definitions@);
    let ghost names = all.map_values(|definition: DefinitionView| reported_name(definition));
    let count: usize = if definitions.len() < 5 {
        definitions.len()
    } else {
        5
    };
    for index in 0..count
        invariant
            all == definitions_view(definitions@),
            names == all.map_values(|definition: DefinitionView| reported_name(definition)),
            count <= definitions@.len(),
            texts(sample@) == names.take(index as int),
    {
        let definition = &definitions[index];
        let name: String = match &definition.module {
            Some(module) => qualified_name(module.as_str(), definition.name.as_str()),
            None => definition.name.clone(),
        };
        let ghost before = texts(sample@);
        sample.push(name);
        assert(texts(sample@) =~= before.push(name@));
        assert(names[index as int] == name@);
        assert(names.take(index + 1) =~= names.take(index as int).push(name@));
    }
    if definitions.len() > 5 {
        let ghost before = texts(sample@);
        let more = "... and ".to_owned().concat(
            render_decimal((definitions.len() - 5) as u64).as_str(),
        ).concat(" more");
        sample.push(more);
        assert(texts(sample@) =~= before.push(more@));
        assert(names.take(5) =~= all.take(5).map_values(
            |definition: DefinitionView| reported_name(definition),
        ));
    } else {
        assert(names.take(count as int) =~= names);
    }
    sample
}

fn warn_unresolved(unresolved: WaitingDefinitions, warnings: &mut Vec<MibWarning>) -> (order: Ghost<
    Seq<Seq<char>>,
>)
    ensures
        lists(order@, unresolved@),
        warnings_view(final(warnings)@) == warnings_view(old(warnings)@) + unresolved_warnings(
            unresolved@,
            order@,
        ),
{
    let ghost waiting = unresolved@;
    let entries = unresolved.into_entries();
    let ghost order = entry_keys(entries@);
    let ghost expected = unresolved_warnings(waiting, order);
    let ghost start = warnings_view(warnings@);
    let ghost listed = entries@;
    for entry in it: entries
        invariant
            it.seq() == listed,
            order == entry_keys(listed),
            expected == unresolved_warnings(waiting, order),
            forall|i: int|
                0 <= i < listed.len() ==> definitions_view((#[trigger] listed[i]).1@)
                    == waiting[listed[i].0@],
            warnings_view(warnings@) == start + expected.take(it.index() as int),
    {
        let ghost before = warnings_view(warnings@);
        let ghost index = it.index() as int;
        assert(entry == listed[index]);
        let (symbol, definitions) = entry;
        let sample = unresolved_sample(&definitions);
        let warning = MibWarning::Unresolved {
            symbol,
            affected_definitions: definitions.len(),
            sample,
        };
        warnings.push(warning);
        proof {
            assert(order[index] == symbol@);
            assert(warning@ == expected[index]);
            assert(warnings_view(warnings@) =~= before.push(warning@));
            assert(expected.take(index + 1) =~= expected.take(index).push(expected[index]));
        }
    }
    assert(expected.take(expected.len() as int) =~= expected);
    Ghost(order)
}

/// The outcome of a load.
pub struct MibLoad {
    pub resolver: Result<MibResolver, String>,
    pub warnings: Vec<MibWarning>,
}

fn gather_file(
    source: &MibSource,
    definitions: &mut Vec<RawDefinition>,
    warnings: &mut Vec<MibWarning>,
) -> (r: Result<(), String>)
    ensures
        ({
            let after = Gathered {
                definitions: definitions_view(old(definitions)@),
                warnings: warnings_view(old(warnings)@),
                error: None,
            }.with_file(*source);
            &&& after.definitions == definitions_view(final(definitions)@)
            &&& after.warnings == warnings_view(final(warnings)@)
            &&& match r {
                Ok(_) => after.error is None,
                Err(error) => after.error == Some(error@),
            }
        }),
{
    let ghost before = warnings_view(warnings@);
    let ghost defined = definitions_view(definitions@);
    match &source.contents {
        Ok(contents) => {
            let mut parsed = parse_definitions(contents.as_str());
            let ghost added = definitions_view(parsed@);
            if parsed.len() == 0 {
                let warning = MibWarning::NoDefinitions { path: source.path.clone() };
                warnings.push(warning);
                assert(warnings_view(warnings@) =~= before.push(warning@));
            }
            definitions.append(&mut parsed);
            assert(definitions_view(definitions@) =~= defined + added);
            Ok(())
        },
        Err(error) => {
            if source.required {
                return Err(error.clone());
            }
            let warning = MibWarning::Unreadable {
                path: source.path.clone(),
                error: error.clone(),
            };
            warnings.push(warning);
            assert(warnings_view(warnings@) =~= before.push(warning@));
            Ok(())
        },
    }
}

proof fn lemma_error_ends_files(start: Gathered, sources: Seq<MibSource>, count: int)
    requires
        0 <= count <= sources.len(),
        start.with_files(sources.take(count)).error is Some,
    ensures
        start.with_files(sources) == start.with_files(sources.take(count)),
    decreases sources.len(),
{
    if count < sources.len() {
        assert(sources.drop_last().take(count) =~= sources.take(count));
        lemma_error_ends_files(start, sources.drop_last(), count);
    } else {
        assert(sources.take(count) =~= sources);
    }
}

proof fn lemma_error_stays(start: Gathered, sources: Seq<MibSource>)
    requires
        start.error is Some,
    ensures
        start.with_files(sources) == start,
    decreases sources.len(),
{
    if sources.len() > 0 {
        lemma_error_stays(start, sources.drop_last());
    }
}

proof fn lemma_error_ends_paths(
    start: Gathered,
    paths: Seq<Result<Vec<MibSource>, String>>,
    count: int,
)
    requires
        0 <= count <= paths.len(),
        start.with_paths(paths.take(count)).error is Some,
    ensures
        start.with_paths(paths) == start.with_paths(paths.take(count)),
    decreases paths.len(),
{
    if count < paths.len() {
        assert(paths.drop_last().take(count) =~= paths.take(count));
        lemma_error_ends_paths(start, paths.drop_last(), count);
        let before = start.with_paths(paths.drop_last());
        if let Ok(sources) = paths.last() {
            lemma_error_stays(before, sources@);
        }
    } else {
        assert(paths.take(count) =~= paths);
    }
}

fn gather_files(
    sources: &Vec<MibSource>,
    definitions: &mut Vec<RawDefinition>,
    warnings: &mut Vec<MibWarning>,
) -> (r: Result<(), String>)
    ensures
        ({
            let after = Gathered {
                definitions: definitions_view(old(definitions)@),
                warnings: warnings_view(old(warnings)@),
                error: None,
            }.with_files(sources@);
            &&& after.definitions == definitions_view(final(definitions)@)
            &&& after.warnings == warnings_view(final(warnings)@)
            &&& match r {
                Ok(_) => after.error is None,
                Err(error) => after.error == Some(error@),
            }
        }),
{
    let ghost start = Gathered {
        definitions: definitions_view(definitions@),
        warnings: warnings_view(warnings@),
        error: None,
    };
    for index in 0..sources.len()
        invariant
            start == (Gathered {
                definitions: definitions_view(old(definitions)@),
                warnings: warnings_view(old(warnings)@),
                error: None,
            }),
            start.with_files(sources@.take(index as int)) == (Gathered {
                definitions: definitions_view(definitions@),
                warnings: warnings_view(warnings@),
                error: None,
            }),
    {
        proof {
            let more = sources@.take(index + 1);
            assert(more.drop_last() =~= sources@.take(index as int));
            assert(more.last() == sources@[index as int]);
        }
        if let Err(error) = gather_file(&sources[index], definitions, warnings) {
            proof {
                lemma_error_ends_files(start, sources@, index + 1);
            }
            return Err(error);
        }
    }
    assert(sources@.take(sources@.len() as int) =~= sources@);
    Ok(())
}

impl MibResolver {
    /// Loads a resolver from the files of the configured paths, on top of the builtin names. A path
    /// that cannot be loaded, or a required file that cannot be read, fails the load; the warnings
    /// are those up to then.
    pub fn from_paths(paths: &Vec<Result<Vec<MibSource>, String>>) -> (r: MibLoad)
        ensures
            match r.resolver {
                Ok(resolver) => gathered(paths@).error is None && loads_to(
                    gathered(paths@),
                    resolver@,
                    warnings_view(r.warnings@),
                ),
                Err(error) => gathered(paths@).error == Some(error@) && warnings_view(r.warnings@)
                    == gathered(paths@).warnings,
            },
    {
        let mut definitions: Vec<RawDefinition> = Vec::new();
        let mut warnings: Vec<MibWarning> = Vec::new();
        let ghost start = Gathered {
            definitions: Seq::empty(),
            warnings: Seq::empty(),
            error: None,
        };
        assert(definitions_view(definitions@) =~= Seq::empty());
        assert(warnings_view(warnings@) =~= Seq::empty());
        for index in 0..paths.len()
            invariant
                start == (Gathered {
                    definitions: Seq::empty(),
                    warnings: Seq::empty(),
                    error: None,
                }),
                start.with_paths(paths@.take(index as int)) == (Gathered {
                    definitions: definitions_view(definitions@),
                    warnings: warnings_view(warnings@),
                    error: None,
                }),
        {
            proof {
                let more = paths@.take(index + 1);
                assert(more.drop_last() =~= paths@.take(index as int));
                assert(more.last() == paths@[index as int]);
            }
            match &paths[index] {
                Ok(sources) => {
                    if let Err(error) = gather_files(sources, &mut definitions, &mut warnings) {
                        proof {
                            lemma_error_ends_paths(start, paths@, index + 1);
                        }
                        return MibLoad { resolver: Err(error), warnings };
                    }
                },
                Err(error) => {
                    proof {
                        lemma_error_ends_paths(start, paths@, index + 1);
                    }
                    return MibLoad { resolver: Err(error.clone()), warnings };
                },
            }
        }
        assert(paths@.take(paths@.len() as int) =~= paths@);
        let mut resolver = MibResolver::with_builtin_symbols();
        let unresolved = resolver.resolve_definitions(definitions);
        let ghost waiting = unresolved@;
        let Ghost(order) = warn_unresolved(unresolved, &mut warnings);
        assert(resolve_to(builtin_names(), gathered(paths@).definitions, resolver@, waiting));
        assert(lists(order, waiting));
        MibLoad { resolver: Ok(resolver), warnings }
    }
}

/// The definitions in a file, as far as it could be read.
pub open spec fn definitions_in(source: MibSource) -> Seq<DefinitionView> {
    match source.contents {
        Ok(contents) => file_definitions(contents@),
        Err(_) => Seq::empty(),
    }
}

/// What a file that does not fail the load is warned of: that it could not be read, or that nothing
/// is defined in it.
pub open spec fn warnings_of(source: MibSource) -> Seq<WarningView> {
    match source.contents {
        Ok(contents) => if file_definitions(contents@).len() == 0 {
            seq![WarningView::NoDefinitions { path: source.path@ }]
        } else {
            Seq::empty()
        },
        Err(error) => seq![WarningView::Unreadable { path: source.path@, error: error@ }],
    }
}

/// The files of the paths, in order.
pub open spec fn files_of(paths: Seq<Result<Vec<MibSource>, String>>) -> Seq<MibSource> {
    paths.map_values(
        |path: Result<Vec<MibSource>, String>|
            match path {
                Ok(sources) => sources@,
                Err(_) => Seq::empty(),
            },
    ).flatten()
}

/// A file fails the load: it is required and could not be read.
pub open spec fn fails(source: MibSource) -> bool {
    source.required && source.contents is Err
}

/// Every path could be loaded, and no file fails the load.
pub open spec fn all_loadable(paths: Seq<Result<Vec<MibSource>, String>>) -> bool {
    &&& forall|i: int| 0 <= i < paths.len() ==> (#[trigger] paths[i]) is Ok
    &&& forall|i: int, j: int|
        0 <= i < paths.len() && 0 <= j < paths[i]->Ok_0@.len() ==> !fails(
            #[trigger] paths[i]->Ok_0@[j],
        )
}

proof fn lemma_files_gathered(start: Gathered, sources: Seq<MibSource>)
    requires
        start.error is None,
        forall|j: int| 0 <= j < sources.len() ==> !fails(#[trigger] sources[j]),
    ensures
        start.with_files(sources) == (Gathered {
            definitions: start.definitions + sources.map_values(
                |source: MibSource| definitions_in(source),
            ).flatten(),
            warnings: start.warnings + sources.map_values(
                |source: MibSource| warnings_of(source),
            ).flatten(),
            error: None,
        }),
    decreases sources.len(),
{
    let definitions = sources.map_values(|source: MibSource| definitions_in(source));
    let warnings = sources.map_values(|source: MibSource| warnings_of(source));
    if sources.len() == 0 {
        assert(start.definitions + definitions.flatten() =~= start.definitions);
        assert(start.warnings + warnings.flatten() =~= start.warnings);
    } else {
        let front = sources.drop_last();
        let last = sources.last();
        assert forall|j: int| 0 <= j < front.len() implies !fails(#[trigger] front[j]) by {
            assert(front[j] == sources[j]);
        }
        assert(!fails(sources[sources.len() - 1]));
        lemma_files_gathered(start, front);
        let fewer = front.map_values(|source: MibSource| definitions_in(source));
        let less = front.map_values(|source: MibSource| warnings_of(source));
        assert(definitions =~= fewer.push(definitions_in(last)));
        assert(warnings =~= less.push(warnings_of(last)));
        fewer.lemma_flatten_push(definitions_in(last));
        less.lemma_flatten_push(warnings_of(last));
        let after = start.with_files(sources);
        assert(after.definitions =~= start.definitions + definitions.flatten());
        assert(after.warnings =~= start.warnings + warnings.flatten());
    }
}

proof fn lemma_paths_gathered(paths: Seq<Result<Vec<MibSource>, String>>)
    requires
        all_loadable(paths),
    ensures
        gathered(paths) == (Gathered {
            definitions: files_of(paths).map_values(
                |source: MibSource| definitions_in(source),
            ).flatten(),
            warnings: files_of(paths).map_values(
                |source: MibSource| warnings_of(source),
            ).flatten(),
            error: None,
        }),
    decreases paths.len(),
{
    let files = |path: Result<Vec<MibSource>, String>|
        match path {
            Ok(sources) => sources@,
            Err(_) => Seq::empty(),
        };
    let define = |source: MibSource| definitions_in(source);
    let warn = |source: MibSource| warnings_of(source);
    if paths.len() == 0 {
        assert(files_of(paths) =~= Seq::empty());
        assert(files_of(paths).map_values(define) =~= Seq::empty());
        assert(files_of(paths).map_values(warn) =~= Seq::empty());
    } else {
        let front = paths.drop_last();
        let last = paths.last()->Ok_0@;
        assert(paths[paths.len() - 1] is Ok);
        assert forall|i: int| 0 <= i < front.len() implies (#[trigger] front[i]) is Ok by {
            assert(front[i] == paths[i]);
        }
        assert forall|i: int, j: int|
            0 <= i < front.len() && 0 <= j < front[i]->Ok_0@.len() implies !fails(
            #[trigger] front[i]->Ok_0@[j],
        ) by {
            assert(!fails(paths[i]->Ok_0@[j]));
        }
        assert forall|j: int| 0 <= j < last.len() implies !fails(#[trigger] last[j]) by {
            assert(!fails(paths[paths.len() - 1]->Ok_0@[j]));
        }
        lemma_paths_gathered(front);
        lemma_files_gathered(gathered(front), last);
        assert(paths.map_values(files) =~= front.map_values(files).push(last));
        front.map_values(files).lemma_flatten_push(last);
        assert(files_of(paths) == files_of(front) + last);
        assert(files_of(paths).map_values(define) =~= files_of(front).map_values(define)
            + last.map_values(define));
        assert(files_of(paths).map_values(warn) =~= files_of(front).map_values(warn)
            + last.map_values(warn));
        vstd::seq_lib::lemma_flatten_concat(
            files_of(front).map_values(define),
            last.map_values(define),
        );
        vstd::seq_lib::lemma_flatten_concat(
            files_of(front).map_values(warn),
            last.map_values(warn),
        );
    }
}

/// Where nothing fails the load, the definitions that are resolved are those of every file that could
/// be read, of every path and in order, and each file that gives none is warned of.
pub proof fn every_file_is_gathered(paths: Seq<Result<Vec<MibSource>, String>>)
    requires
        all_loadable(paths),
    ensures
        gathered(paths).error is None,
        gathered(paths).definitions == files_of(paths).map_values(
            |source: MibSource| definitions_in(source),
        ).flatten(),
        gathered(paths).warnings == files_of(paths).map_values(
            |source: MibSource| warnings_of(source),
        ).flatten(),
{
    lemma_paths_gathered(paths);
}

proof fn lemma_flatten_contains<A>(parts: Seq<Seq<A>>, at: int, item: A)
    requires
        0 <= at < parts.len(),
        parts[at].contains(item),
    ensures
        parts.flatten().contains(item),
    decreases parts.len(),
{
    let first = parts.first();
    let rest = parts.drop_first().flatten();
    if at == 0 {
        let place = choose|place: int| 0 <= place < first.len() && first[place] == item;
        assert(parts.flatten()[place] == item);
    } else {
        assert(parts.drop_first()[at - 1] == parts[at]);
        lemma_flatten_contains(parts.drop_first(), at - 1, item);
        let place = choose|place: int| 0 <= place < rest.len() && rest[place] == item;
        assert(parts.flatten()[first.len() + place] == item);
    }
}

/// Where nothing fails the load, no definition is lost: each of each file of each path is resolved.
pub proof fn no_file_is_forgotten(
    paths: Seq<Result<Vec<MibSource>, String>>,
    i: int,
    j: int,
    definition: DefinitionView,
)
    requires
        all_loadable(paths),
        0 <= i < paths.len(),
        0 <= j < paths[i]->Ok_0@.len(),
        paths[i]->Ok_0@[j].contents is Ok,
        file_definitions(paths[i]->Ok_0@[j].contents->Ok_0@).contains(definition),
    ensures
        gathered(paths).definitions.contains(definition),
{
    lemma_paths_gathered(paths);
    let files = |path: Result<Vec<MibSource>, String>|
        match path {
            Ok(sources) => sources@,
            Err(_) => Seq::empty(),
        };
    let define = |source: MibSource| definitions_in(source);
    let source = paths[i]->Ok_0@[j];
    assert(paths[i] is Ok);
    assert(paths.map_values(files)[i] == paths[i]->Ok_0@);
    assert(paths[i]->Ok_0@.contains(source));
    lemma_flatten_contains(paths.map_values(files), i, source);
    let all = files_of(paths);
    let at = choose|at: int| 0 <= at < all.len() && all[at] == source;
    assert(all.map_values(define)[at] == definitions_in(source));
    lemma_flatten_contains(all.map_values(define), at, definition);
}

/// The first path that cannot be loaded fails the load, with its error and the warnings up to it.
pub proof fn unloadable_paths_fail_the_load(
    paths: Seq<Result<Vec<MibSource>, String>>,
    i: int,
)
    requires
        0 <= i < paths.len(),
        all_loadable(paths.take(i)),
        paths[i] is Err,
    ensures
        gathered(paths).error == Some(paths[i]->Err_0@),
        gathered(paths).warnings == files_of(paths.take(i)).map_values(
            |source: MibSource| warnings_of(source),
        ).flatten(),
{
    lemma_paths_gathered(paths.take(i));
    let more = paths.take(i + 1);
    assert(more.drop_last() =~= paths.take(i));
    assert(more.last() == paths[i]);
    let start = Gathered { definitions: Seq::empty(), warnings: Seq::empty(), error: None };
    lemma_error_ends_paths(start, paths, i + 1);
}

/// The first required file that cannot be read fails the load, with its error and the warnings up to
/// it.
pub proof fn unreadable_required_files_fail_the_load(
    paths: Seq<Result<Vec<MibSource>, String>>,
    i: int,
    j: int,
)
    requires
        0 <= i < paths.len(),
        all_loadable(paths.take(i)),
        paths[i] is Ok,
        0 <= j < paths[i]->Ok_0@.len(),
        forall|k: int| 0 <= k < j ==> !fails(#[trigger] paths[i]->Ok_0@[k]),
        fails(paths[i]->Ok_0@[j]),
    ensures
        gathered(paths).error == Some(paths[i]->Ok_0@[j].contents->Err_0@),
        gathered(paths).warnings == (files_of(paths.take(i)) + paths[i]->Ok_0@.take(j)).map_values(
            |source: MibSource| warnings_of(source),
        ).flatten(),
{
    let sources = paths[i]->Ok_0@;
    let before = gathered(paths.take(i));
    let warn = |source: MibSource| warnings_of(source);
    lemma_paths_gathered(paths.take(i));
    assert forall|k: int| 0 <= k < sources.take(j).len() implies !fails(
        #[trigger] sources.take(j)[k],
    ) by {
        assert(!fails(paths[i]->Ok_0@[k]));
    }
    lemma_files_gathered(before, sources.take(j));
    assert(sources.take(j + 1).drop_last() =~= sources.take(j));
    assert(sources.take(j + 1).last() == sources[j]);
    lemma_error_ends_files(before, sources, j + 1);
    let more = paths.take(i + 1);
    assert(more.drop_last() =~= paths.take(i));
    assert(more.last() == paths[i]);
    let start = Gathered { definitions: Seq::empty(), warnings: Seq::empty(), error: None };
    lemma_error_ends_paths(start, paths, i + 1);
    assert((files_of(paths.take(i)) + sources.take(j)).map_values(warn) =~= files_of(
        paths.take(i),
    ).map_values(warn) + sources.take(j).map_values(warn));
    vstd::seq_lib::lemma_flatten_concat(
        files_of(paths.take(i)).map_values(warn),
        sources.take(j).map_values(warn),
    );
}

/// A sample names the definitions by module and name, the first five of them, and tells how many
/// there are besides.
pub open spec fn samples(sample: Seq<Seq<char>>, definitions: Seq<DefinitionView>) -> bool {
    &&& sample.len() == if definitions.len() <= 5 {
        definitions.len()
    } else {
        6
    }
    &&& forall|i: int|
        0 <= i < definitions.len() && i < 5 ==> (#[trigger] sample[i]) == match
            definitions[i].module {
            Some(module) => module + "::"@ + definitions[i].name,
            None => definitions[i].name,
        }
    &&& definitions.len() > 5 ==> exists|number: Seq<char>| #[trigger]
        writes_integer(number, definitions.len() - 5) && sample[5] == "... and "@ + number
            + " more"@
}

/// Every symbol that is left unresolved is warned of once, behind the other warnings, with the
/// number of the definitions that refer to it and a sample of them.
pub proof fn unresolved_symbols_are_warned_of(
    files: Gathered,
    names: Map<Seq<u32>, SymbolView>,
    warnings: Seq<WarningView>,
)
    requires
        loads_to(files, names, warnings),
    ensures
        warnings.len() >= files.warnings.len(),
        warnings.take(files.warnings.len() as int) == files.warnings,
        exists|unresolved: Map<Seq<char>, Seq<DefinitionView>>, order: Seq<Seq<char>>|
            {
                &&& #[trigger] resolve_to(builtin_names(), files.definitions, names, unresolved)
                &&& #[trigger] lists(order, unresolved)
                &&& warnings.len() == files.warnings.len() + order.len()
                &&& forall|i: int|
                    0 <= i < order.len() ==> {
                        let warning = #[trigger] warnings[files.warnings.len() + i];
                        &&& warning is Unresolved
                        &&& warning->symbol == order[i]
                        &&& warning->affected_definitions == unresolved[order[i]].len()
                        &&& samples(warning->sample, unresolved[order[i]])
                    }
            },
{
    let (unresolved, order) = choose|
        unresolved: Map<Seq<char>, Seq<DefinitionView>>,
        order: Seq<Seq<char>>,
    |
        {
            &&& #[trigger] resolve_to(builtin_names(), files.definitions, names, unresolved)
            &&& #[trigger] lists(order, unresolved)
            &&& warnings == files.warnings + unresolved_warnings(unresolved, order)
        };
    assert(warnings.take(files.warnings.len() as int) =~= files.warnings);
    assert forall|i: int| 0 <= i < order.len() implies {
        let warning = #[trigger] warnings[files.warnings.len() + i];
        &&& warning is Unresolved
        &&& warning->symbol == order[i]
        &&& warning->affected_definitions == unresolved[order[i]].len()
        &&& samples(warning->sample, unresolved[order[i]])
    } by {
        assert(warnings[files.warnings.len() + i] == unresolved_warnings(unresolved, order)[i]);
        lemma_samples(unresolved[order[i]]);
    }
}

proof fn lemma_samples(definitions: Seq<DefinitionView>)
    ensures
        samples(reported_sample(definitions), definitions),
{
    if definitions.len() > 5 {
        let count = (definitions.len() - 5) as nat;
        signed_numerals_read_back(count as int);
        assert(writes_integer(decimal(count), definitions.len() - 5));
        assert(reported_sample(definitions)[5] == "... and "@ + decimal(count) + " more"@);
    }
}

} // verus!
