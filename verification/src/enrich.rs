//! What the source adds to the events of a notification.

use crate::event::{event_tree, event_value, LogEvent};
use crate::tree::{
    array_index, has_room, insert_at, insert_if_empty, insertion_keeps_other_members,
    insertion_reads_back, members_of, nested_field, nested_path, object_value, opt_path, padded,
    path_has_room, text_value, tree_at, tree_with, tree_with_if_empty, value_tree, PathSegment,
    SegmentView, Tree,
};
use vstd::prelude::*;
use vstd::string::*;

verus! {

/// Where the metadata of an event goes.
#[derive(Clone, Copy, Debug, PartialEq, Eq, Structural)]
pub enum LogNamespace {
    /// Among the fields of the event.
    Legacy,
    /// Beside the event.
    Vector,
}

/// Where in an event the metadata of the source goes; what has no place is left out.
pub struct MetadataKeys {
    pub source_type: Option<Vec<PathSegment>>,
    pub timestamp: Option<Vec<PathSegment>>,
    pub host: Option<Vec<PathSegment>>,
}

/// An event can have a value at the key, if there is one.
pub open spec fn key_has_room(key: Option<Seq<SegmentView>>) -> bool {
    key matches Some(path) ==> has_room(path)
}

impl MetadataKeys {
    /// Events can have values at the keys.
    pub open spec fn have_room(self) -> bool {
        &&& key_has_room(opt_path(self.source_type))
        &&& key_has_room(opt_path(self.timestamp))
        &&& key_has_room(opt_path(self.host))
    }

    /// Whether events can have values at the keys: no position is too large for an array in memory.
    pub fn fit(&self) -> (r: bool)
        ensures
            r == self.have_room(),
    {
        opt_path_has_room(&self.source_type) && opt_path_has_room(&self.timestamp)
            && opt_path_has_room(&self.host)
    }
}

fn opt_path_has_room(key: &Option<Vec<PathSegment>>) -> (r: bool)
    ensures
        r == key_has_room(opt_path(*key)),
{
    match key {
        Some(path) => path_has_room(path),
        None => true,
    }
}

/// A log event of a notification, and the time that it is handed on at.
pub struct Arrival {
    pub event: LogEvent,
    pub received: vrl::value::Value,
}

/// A log event, and what goes beside it.
#[derive(Debug)]
pub struct Event {
    pub value: vrl::value::Value,
    pub metadata: vrl::value::Value,
}

/// An event with a value where it has none, if there is a place for it.
pub open spec fn inserted_at(tree: Tree, key: Option<Seq<SegmentView>>, value: Tree) -> Tree {
    match key {
        Some(path) => tree_with_if_empty(tree, path, value),
        None => tree,
    }
}

/// An event with the name of the source.
pub open spec fn with_source_type(tree: Tree, keys: MetadataKeys) -> Tree {
    inserted_at(tree, opt_path(keys.source_type), Tree::Text("snmp_trap"@))
}

/// An event with the name of the source and the time.
pub open spec fn with_standard_metadata(tree: Tree, keys: MetadataKeys, received: Tree) -> Tree {
    inserted_at(with_source_type(tree, keys), opt_path(keys.timestamp), received)
}

/// An event with the name of the source, the time and the host, in this order and each only where
/// the event has no value yet.
pub open spec fn enriched(
    tree: Tree,
    keys: MetadataKeys,
    received: Tree,
    host: Seq<char>,
) -> Tree {
    inserted_at(
        with_standard_metadata(tree, keys, received),
        opt_path(keys.host),
        Tree::Text(host),
    )
}

/// The name of the source, the time and the host beside an event.
pub open spec fn metadata_beside(received: Tree, host: Seq<char>) -> Tree {
    tree_with(
        tree_with(
            tree_with(
                Tree::Object(Map::empty()),
                nested_path("vector"@, "source_type"@),
                Tree::Text("snmp_trap"@),
            ),
            nested_path("vector"@, "ingest_timestamp"@),
            received,
        ),
        nested_path("snmp_trap"@, "host"@),
        Tree::Text(host),
    )
}

/// The event that is handed on of an arrival: its metadata goes among its fields or beside it.
pub open spec fn hands_on(
    event: Event,
    arrival: Arrival,
    keys: MetadataKeys,
    namespace: LogNamespace,
    host: Seq<char>,
) -> bool {
    match namespace {
        LogNamespace::Legacy => {
            &&& value_tree(event.value) == enriched(
                event_tree(arrival.event@),
                keys,
                value_tree(arrival.received),
                host,
            )
            &&& value_tree(event.metadata) == Tree::Object(Map::empty())
        },
        LogNamespace::Vector => {
            &&& value_tree(event.value) == event_tree(arrival.event@)
            &&& value_tree(event.metadata) == metadata_beside(value_tree(arrival.received), host)
        },
    }
}

fn insert_at_key(
    value: &mut vrl::value::Value,
    key: &Option<Vec<PathSegment>>,
    inserted: vrl::value::Value,
)
    requires
        key_has_room(opt_path(*key)),
    ensures
        value_tree(*final(value)) == inserted_at(
            value_tree(*old(value)),
            opt_path(*key),
            value_tree(inserted),
        ),
{
    if let Some(path) = key {
        insert_if_empty(value, path, inserted);
    }
}

/// Adds the metadata of the source to an event.
pub fn enrich_event(
    arrival: Arrival,
    keys: &MetadataKeys,
    namespace: LogNamespace,
    host: &str,
) -> (r: Event)
    requires
        namespace is Legacy ==> keys.have_room(),
    ensures
        hands_on(r, arrival, *keys, namespace, host@),
{
    let mut value = event_value(arrival.event);
    let mut metadata = object_value();
    match namespace {
        LogNamespace::Legacy => {
            insert_at_key(&mut value, &keys.source_type, text_value("snmp_trap".to_owned()));
            insert_at_key(&mut value, &keys.timestamp, arrival.received);
            insert_at_key(&mut value, &keys.host, text_value(host.to_owned()));
            Event { value, metadata }
        },
        LogNamespace::Vector => {
            insert_at(
                &mut metadata,
                &nested_field("vector", "source_type"),
                text_value("snmp_trap".to_owned()),
            );
            insert_at(
                &mut metadata,
                &nested_field("vector", "ingest_timestamp"),
                arrival.received,
            );
            insert_at(
                &mut metadata,
                &nested_field("snmp_trap", "host"),
                text_value(host.to_owned()),
            );
            Event { value, metadata }
        },
    }
}

/// Adds the metadata of the source to each of the events.
pub fn enrich_events(
    arrivals: Vec<Arrival>,
    keys: &MetadataKeys,
    namespace: LogNamespace,
    host: &str,
) -> (r: Vec<Event>)
    requires
        namespace is Legacy ==> keys.have_room(),
    ensures
        r@.len() == arrivals@.len(),
        forall|index: int|
            0 <= index < arrivals@.len() ==> hands_on(
                #[trigger] r@[index],
                arrivals@[index],
                *keys,
                namespace,
                host@,
            ),
{
    let mut events: Vec<Event> = Vec::new();
    for arrival in it: arrivals
        invariant
            namespace is Legacy ==> keys.have_room(),
            events@.len() == it.index(),
            it.seq() == arrivals@,
            forall|index: int|
                0 <= index < it.index() ==> hands_on(
                    #[trigger] events@[index],
                    arrivals@[index],
                    *keys,
                    namespace,
                    host@,
                ),
    {
        events.push(enrich_event(arrival, keys, namespace, host));
    }
    events
}

/// A value at the key does not touch the field: the key leads to another one, or to the whole event,
/// which is always there.
pub open spec fn leaves_field(key: Option<Seq<SegmentView>>, name: Seq<char>) -> bool {
    key matches Some(path) ==> path.len() == 0 || (path[0] is Field && path[0]
        != SegmentView::Field(name))
}

pub proof fn lemma_inserted_leaves_field(
    tree: Tree,
    key: Option<Seq<SegmentView>>,
    value: Tree,
    name: Seq<char>,
)
    requires
        leaves_field(key, name),
    ensures
        members_of(inserted_at(tree, key, value)).contains_key(name) == members_of(
            tree,
        ).contains_key(name),
        members_of(inserted_at(tree, key, value))[name] == members_of(tree)[name],
        tree is Object ==> inserted_at(tree, key, value) is Object,
{
    if let Some(path) = key {
        if tree_at(tree, path) is None {
            insertion_keeps_other_members(tree, path, value, name);
        }
    }
}

/// Metadata goes to no field but those that its keys start with, so that the host goes nowhere where
/// its key is suppressed.
pub proof fn metadata_goes_to_its_keys_alone(
    tree: Tree,
    keys: MetadataKeys,
    received: Tree,
    host: Seq<char>,
    name: Seq<char>,
)
    requires
        leaves_field(opt_path(keys.source_type), name),
        leaves_field(opt_path(keys.timestamp), name),
        leaves_field(opt_path(keys.host), name),
    ensures
        members_of(enriched(tree, keys, received, host)).contains_key(name) == members_of(
            tree,
        ).contains_key(name),
        members_of(enriched(tree, keys, received, host))[name] == members_of(tree)[name],
{
    lemma_inserted_leaves_field(
        tree,
        opt_path(keys.source_type),
        Tree::Text("snmp_trap"@),
        name,
    );
    lemma_inserted_leaves_field(
        with_source_type(tree, keys),
        opt_path(keys.timestamp),
        received,
        name,
    );
    lemma_inserted_leaves_field(
        with_standard_metadata(tree, keys, received),
        opt_path(keys.host),
        Tree::Text(host),
        name,
    );
}

/// An event shows the host that it came from at the configured path, unless the notification has a
/// value there or the other metadata goes to the field that the path starts with.
pub proof fn hosts_go_to_their_key(
    tree: Tree,
    keys: MetadataKeys,
    received: Tree,
    host: Seq<char>,
    path: Seq<SegmentView>,
    name: Seq<char>,
)
    requires
        tree is Object,
        opt_path(keys.host) == Some(path),
        path.len() > 0,
        path[0] == SegmentView::Field(name),
        tree_at(tree, path) is None,
        leaves_field(opt_path(keys.source_type), name),
        leaves_field(opt_path(keys.timestamp), name),
    ensures
        tree_at(enriched(tree, keys, received, host), path) == Some(Tree::Text(host)),
{
    lemma_inserted_leaves_field(
        tree,
        opt_path(keys.source_type),
        Tree::Text("snmp_trap"@),
        name,
    );
    lemma_inserted_leaves_field(
        with_source_type(tree, keys),
        opt_path(keys.timestamp),
        received,
        name,
    );
    insertion_reads_back(with_standard_metadata(tree, keys, received), path, Tree::Text(host));
}

/// A path leads from an event only through objects and arrays that are there, up to a member that is
/// not there or a position behind the end of an array.
pub open spec fn extends(tree: Tree, path: Seq<SegmentView>) -> bool
    decreases path.len(),
{
    if path.len() == 0 {
        true
    } else {
        match (path[0], tree) {
            (SegmentView::Field(name), Tree::Object(members)) => members.contains_key(name)
                ==> extends(members[name], path.drop_first()),
            (SegmentView::Index(index), Tree::Array(items)) => index >= items.len() || (0
                <= array_index(items, index) && extends(
                items[array_index(items, index)],
                path.drop_first(),
            )),
            _ => false,
        }
    }
}

/// The positions of a path count from the start.
pub open spec fn counts_from_start(path: Seq<SegmentView>) -> bool {
    forall|i: int|
        0 <= i < path.len() ==> ((#[trigger] path[i]) matches SegmentView::Index(index) ==> index
            >= 0)
}

/// A value holds no values.
pub open spec fn is_leaf(tree: Tree) -> bool {
    !(tree is Object) && !(tree is Array)
}

/// A value put where there is none, by way of objects and arrays that are there, replaces no value.
pub proof fn insertion_keeps_values(
    tree: Tree,
    path: Seq<SegmentView>,
    value: Tree,
    other: Seq<SegmentView>,
)
    requires
        tree_at(tree, path) is None,
        extends(tree, path),
        counts_from_start(other),
        tree_at(tree, other) is Some,
        is_leaf(tree_at(tree, other)->0),
    ensures
        tree_at(tree_with(tree, path, value), other) == tree_at(tree, other),
    decreases path.len(),
{
    assert(path.len() > 0 && other.len() > 0);
    let rest = other.drop_first();
    assert forall|i: int| 0 <= i < rest.len() implies ((#[trigger] rest[i]) matches
        SegmentView::Index(index) ==> index >= 0) by {
        assert(rest[i] == other[i + 1]);
    }
    match (path[0], tree) {
        (SegmentView::Field(name), Tree::Object(members)) => {
            if other[0] == path[0] {
                insertion_keeps_values(members[name], path.drop_first(), value, rest);
            }
        },
        (SegmentView::Index(index), Tree::Array(items)) => {
            let at = array_index(items, index);
            let position = other[0]->Index_0;
            assert(other[0] == SegmentView::Index(position));
            assert(0 <= position < items.len());
            assert(padded(items, index)[position] == items[position]);
            if 0 <= at < items.len() && position == at {
                insertion_keeps_values(items[at], path.drop_first(), value, rest);
            }
        },
        _ => {},
    }
}

/// There is a value at the key, or its path leads only through objects and arrays that are there.
pub open spec fn fits(tree: Tree, key: Option<Seq<SegmentView>>) -> bool {
    key matches Some(path) ==> tree_at(tree, path) is Some || extends(tree, path)
}

proof fn lemma_inserted_keeps_values(
    tree: Tree,
    key: Option<Seq<SegmentView>>,
    value: Tree,
    other: Seq<SegmentView>,
)
    requires
        fits(tree, key),
        counts_from_start(other),
        tree_at(tree, other) is Some,
        is_leaf(tree_at(tree, other)->0),
    ensures
        tree_at(inserted_at(tree, key, value), other) == tree_at(tree, other),
{
    if let Some(path) = key {
        if tree_at(tree, path) is None {
            insertion_keeps_values(tree, path, value, other);
        }
    }
}

/// Metadata replaces nothing: every value of a notification stays where it is, if no key leads
/// through a value that holds none.
pub proof fn metadata_only_adds(
    tree: Tree,
    keys: MetadataKeys,
    received: Tree,
    host: Seq<char>,
    other: Seq<SegmentView>,
)
    requires
        fits(tree, opt_path(keys.source_type)),
        fits(with_source_type(tree, keys), opt_path(keys.timestamp)),
        fits(with_standard_metadata(tree, keys, received), opt_path(keys.host)),
        counts_from_start(other),
        tree_at(tree, other) is Some,
        is_leaf(tree_at(tree, other)->0),
    ensures
        tree_at(enriched(tree, keys, received, host), other) == tree_at(tree, other),
{
    lemma_inserted_keeps_values(
        tree,
        opt_path(keys.source_type),
        Tree::Text("snmp_trap"@),
        other,
    );
    lemma_inserted_keeps_values(
        with_source_type(tree, keys),
        opt_path(keys.timestamp),
        received,
        other,
    );
    lemma_inserted_keeps_values(
        with_standard_metadata(tree, keys, received),
        opt_path(keys.host),
        Tree::Text(host),
        other,
    );
}

/// A path leads through members alone.
pub open spec fn is_field_path(path: Seq<SegmentView>) -> bool {
    forall|i: int| 0 <= i < path.len() ==> (#[trigger] path[i]) is Field
}

/// A value put where there is none leaves a value at every path through members that has one.
proof fn lemma_insertion_keeps_presence(
    tree: Tree,
    path: Seq<SegmentView>,
    value: Tree,
    other: Seq<SegmentView>,
)
    requires
        tree_at(tree, path) is None,
        tree_at(tree, other) is Some,
        is_field_path(path),
        is_field_path(other),
    ensures
        tree_at(tree_with(tree, path, value), other) is Some,
    decreases path.len(),
{
    if other.len() > 0 {
        assert(path.len() > 0);
        assert(path[0] is Field && other[0] is Field);
        if path[0] == other[0] {
            let name = path[0]->Field_0;
            assert forall|i: int| 0 <= i < path.drop_first().len() implies (
            #[trigger] path.drop_first()[i]) is Field by {
                assert(path.drop_first()[i] == path[i + 1]);
            }
            assert forall|i: int| 0 <= i < other.drop_first().len() implies (
            #[trigger] other.drop_first()[i]) is Field by {
                assert(other.drop_first()[i] == other[i + 1]);
            }
            lemma_insertion_keeps_presence(
                members_of(tree)[name],
                path.drop_first(),
                value,
                other.drop_first(),
            );
        }
    }
}

proof fn lemma_inserted_keeps_presence(
    tree: Tree,
    key: Option<Seq<SegmentView>>,
    value: Tree,
    other: Seq<SegmentView>,
)
    requires
        key matches Some(path) ==> is_field_path(path),
        is_field_path(other),
        tree_at(tree, other) is Some || key == Some(other),
    ensures
        tree_at(inserted_at(tree, key, value), other) is Some,
{
    if let Some(path) = key {
        if tree_at(tree, path) is None {
            insertion_reads_back(tree, path, value);
            if tree_at(tree, other) is Some {
                lemma_insertion_keeps_presence(tree, path, value, other);
            }
        }
    }
}

/// An event has a value at each of the keys for metadata, if they lead through members alone.
pub proof fn metadata_is_found_at_its_keys(
    tree: Tree,
    keys: MetadataKeys,
    received: Tree,
    host: Seq<char>,
    path: Seq<SegmentView>,
)
    requires
        opt_path(keys.source_type) matches Some(path) ==> is_field_path(path),
        opt_path(keys.timestamp) matches Some(path) ==> is_field_path(path),
        opt_path(keys.host) matches Some(path) ==> is_field_path(path),
        opt_path(keys.source_type) == Some(path) || opt_path(keys.timestamp) == Some(path)
            || opt_path(keys.host) == Some(path),
    ensures
        tree_at(enriched(tree, keys, received, host), path) is Some,
{
    let named = with_source_type(tree, keys);
    let timed = with_standard_metadata(tree, keys, received);
    if opt_path(keys.source_type) == Some(path) {
        let name = Tree::Text("snmp_trap"@);
        lemma_inserted_keeps_presence(tree, opt_path(keys.source_type), name, path);
    }
    if tree_at(named, path) is Some || opt_path(keys.timestamp) == Some(path) {
        lemma_inserted_keeps_presence(named, opt_path(keys.timestamp), received, path);
    }
    lemma_inserted_keeps_presence(timed, opt_path(keys.host), Tree::Text(host), path);
}

/// What goes beside an event is found there: the name of the source, the time and the host.
pub proof fn metadata_is_beside_its_event(received: Tree, host: Seq<char>)
    ensures
        tree_at(metadata_beside(received, host), nested_path("vector"@, "source_type"@)) == Some(
            Tree::Text("snmp_trap"@),
        ),
        tree_at(metadata_beside(received, host), nested_path("vector"@, "ingest_timestamp"@))
            == Some(received),
        tree_at(metadata_beside(received, host), nested_path("snmp_trap"@, "host"@)) == Some(
            Tree::Text(host),
        ),
{
    reveal_strlit("vector");
    reveal_strlit("snmp_trap");
    reveal_strlit("source_type");
    reveal_strlit("ingest_timestamp");
    reveal_with_fuel(tree_at, 3);
    reveal_with_fuel(tree_with, 3);
    assert("vector"@.len() != "snmp_trap"@.len());
    assert("source_type"@.len() != "ingest_timestamp"@.len());
}

} // verus!
