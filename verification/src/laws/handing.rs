//! What is handed on of events.

use crate::enrich::{
    enriched, hands_on, leaves_field, lemma_inserted_leaves_field, metadata_goes_to_its_keys_alone,
    metadata_is_beside_its_event, with_source_type, with_standard_metadata, Arrival, Event,
    LogNamespace, MetadataKeys,
};
use crate::event::event_tree;
use crate::tree::{
    insertion_reads_back, members_of, opt_path, tree_at, value_tree, SegmentView, Tree,
};
use vstd::prelude::*;
use vstd::string::*;

verus! {

/// The path to a member of a member.
pub open spec fn member_path(outer: Seq<char>, inner: Seq<char>) -> Seq<SegmentView> {
    seq![SegmentView::Field(outer), SegmentView::Field(inner)]
}

/// With metadata beside it, an event is handed on as its notification gave it, and the name of the
/// source, the time and the host are found beside it.
pub proof fn events_are_handed_on_beside_their_metadata(
    event: Event,
    arrival: Arrival,
    keys: MetadataKeys,
    host: Seq<char>,
)
    requires
        hands_on(event, arrival, keys, LogNamespace::Vector, host),
    ensures
        value_tree(event.value) == event_tree(arrival.event@),
        tree_at(value_tree(event.metadata), member_path("vector"@, "source_type"@)) == Some(
            Tree::Text("snmp_trap"@),
        ),
        tree_at(value_tree(event.metadata), member_path("vector"@, "ingest_timestamp"@)) == Some(
            value_tree(arrival.received),
        ),
        tree_at(value_tree(event.metadata), member_path("snmp_trap"@, "host"@)) == Some(
            Tree::Text(host),
        ),
{
    metadata_is_beside_its_event(value_tree(arrival.received), host);
}

/// With metadata among its fields, an event has nothing beside it, and keeps every field that the
/// metadata does not go to.
pub proof fn events_are_handed_on_with_their_fields(
    event: Event,
    arrival: Arrival,
    keys: MetadataKeys,
    host: Seq<char>,
    name: Seq<char>,
)
    requires
        hands_on(event, arrival, keys, LogNamespace::Legacy, host),
        leaves_field(opt_path(keys.source_type), name),
        leaves_field(opt_path(keys.timestamp), name),
        leaves_field(opt_path(keys.host), name),
    ensures
        members_of(value_tree(event.metadata)) == Map::<Seq<char>, Tree>::empty(),
        members_of(value_tree(event.value)).contains_key(name) == members_of(
            event_tree(arrival.event@),
        ).contains_key(name),
        members_of(value_tree(event.value))[name] == members_of(event_tree(arrival.event@))[name],
{
    metadata_goes_to_its_keys_alone(
        event_tree(arrival.event@),
        keys,
        value_tree(arrival.received),
        host,
        name,
    );
}

/// The path starts with the field, and leads to no value of the tree.
pub open spec fn is_free(tree: Tree, path: Seq<SegmentView>, name: Seq<char>) -> bool {
    &&& tree is Object
    &&& path.len() > 0
    &&& path[0] == SegmentView::Field(name)
    &&& tree_at(tree, path) is None
}

proof fn lemma_field_decides(left: Tree, right: Tree, path: Seq<SegmentView>, name: Seq<char>)
    requires
        left is Object,
        right is Object,
        path.len() > 0,
        path[0] == SegmentView::Field(name),
        members_of(left).contains_key(name) == members_of(right).contains_key(name),
        members_of(left)[name] == members_of(right)[name],
    ensures
        tree_at(left, path) == tree_at(right, path),
{
}

/// An event shows the name of the source at the key for it, unless the notification has a value there
/// or the other metadata goes to the field that the key starts with.
pub proof fn sources_go_to_their_key(
    tree: Tree,
    keys: MetadataKeys,
    received: Tree,
    host: Seq<char>,
    path: Seq<SegmentView>,
    name: Seq<char>,
)
    requires
        opt_path(keys.source_type) == Some(path),
        is_free(tree, path, name),
        leaves_field(opt_path(keys.timestamp), name),
        leaves_field(opt_path(keys.host), name),
    ensures
        tree_at(enriched(tree, keys, received, host), path) == Some(Tree::Text("snmp_trap"@)),
{
    let source = Tree::Text("snmp_trap"@);
    let named = with_source_type(tree, keys);
    let timed = with_standard_metadata(tree, keys, received);
    insertion_reads_back(tree, path, source);
    lemma_inserted_leaves_field(named, opt_path(keys.timestamp), received, name);
    lemma_inserted_leaves_field(timed, opt_path(keys.host), Tree::Text(host), name);
    lemma_field_decides(named, timed, path, name);
    lemma_field_decides(timed, enriched(tree, keys, received, host), path, name);
}

/// An event shows the time at the key for it, unless the notification has a value there or the other
/// metadata goes to the field that the key starts with.
pub proof fn times_go_to_their_key(
    tree: Tree,
    keys: MetadataKeys,
    received: Tree,
    host: Seq<char>,
    path: Seq<SegmentView>,
    name: Seq<char>,
)
    requires
        opt_path(keys.timestamp) == Some(path),
        is_free(tree, path, name),
        leaves_field(opt_path(keys.source_type), name),
        leaves_field(opt_path(keys.host), name),
    ensures
        tree_at(enriched(tree, keys, received, host), path) == Some(received),
{
    let source = Tree::Text("snmp_trap"@);
    let named = with_source_type(tree, keys);
    let timed = with_standard_metadata(tree, keys, received);
    lemma_inserted_leaves_field(tree, opt_path(keys.source_type), source, name);
    lemma_field_decides(tree, named, path, name);
    insertion_reads_back(named, path, received);
    lemma_inserted_leaves_field(timed, opt_path(keys.host), Tree::Text(host), name);
    lemma_field_decides(timed, enriched(tree, keys, received, host), path, name);
}

} // verus!
