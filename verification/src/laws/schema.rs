//! What the source announces of its events, and how events become nested values.

use crate::config::{
    event_schema, source_metadata, varbind_schema, FieldKind, MetadataPlace, MetadataView,
    SnmpTrapConfig,
};
use crate::enrich::LogNamespace;
use crate::event::{event_tree, text_objects, LogValueView};
use crate::laws::{lemma_event_schema, lemma_field_names, lemma_varbind_schema};
use crate::tree::{opt_path, tree_at, PathSegment, SegmentView, Tree};
use vstd::prelude::*;
use vstd::string::*;

verus! {

/// The field is one that every event has.
pub open spec fn is_in_every_event(name: Seq<char>) -> bool {
    ||| name == "snmp_version"@
    ||| name == "pdu_type"@
    ||| name == "source_address"@
    ||| name == "community"@
    ||| name == "varbinds"@
    ||| name == "message"@
}

/// The field is one that every variable binding has.
pub open spec fn is_in_every_binding(name: Seq<char>) -> bool {
    name == "oid"@ || name == "type"@ || name == "value"@
}

/// The fields that are not called optional are those that every event or variable binding has. The
/// message is the only field with a meaning to others.
pub proof fn schemas_require_what_is_always_there()
    ensures
        forall|i: int|
            0 <= i < event_schema().len() ==> (#[trigger] event_schema()[i]).optional
                == !is_in_every_event(event_schema()[i].name),
        forall|i: int|
            0 <= i < varbind_schema().len() ==> (#[trigger] varbind_schema()[i]).optional
                == !is_in_every_binding(varbind_schema()[i].name),
        forall|i: int|
            0 <= i < event_schema().len() ==> (#[trigger] event_schema()[i]).meaning == (if
                event_schema()[i].name == "message"@ {
                Some("message"@)
            } else {
                None
            }),
{
    lemma_field_names();
    lemma_event_schema();
    lemma_varbind_schema();
    reveal_strlit("message");
    reveal_strlit("community");
    reveal_strlit("snmp_version");
    reveal_strlit("pdu_type");
    reveal_strlit("source_address");
    reveal_strlit("varbinds");
    reveal_strlit("enterprise_oid");
    reveal_strlit("enterprise_oid_name");
    reveal_strlit("enterprise_oid_module");
    reveal_strlit("enterprise_oid_symbol");
    reveal_strlit("enterprise_oid_instance");
    reveal_strlit("agent_address");
    reveal_strlit("generic_trap");
    reveal_strlit("generic_trap_name");
    reveal_strlit("specific_trap");
    reveal_strlit("request_id");
    reveal_strlit("trap_oid");
    reveal_strlit("trap_oid_name");
    reveal_strlit("trap_oid_module");
    reveal_strlit("trap_oid_symbol");
    reveal_strlit("trap_oid_instance");
    reveal_strlit("uptime");
    let schema = event_schema();
    assert forall|i: int| 0 <= i < schema.len() implies (#[trigger] schema[i]).optional
        == !is_in_every_event(schema[i].name) && schema[i].meaning == (if schema[i].name
        == "message"@ {
        Some("message"@)
    } else {
        None
    }) by {
        let name = schema[i].name;
        if is_in_every_event(name) {
            lemma_not_in_every_event(name);
        }
    }
    reveal_strlit("oid");
    reveal_strlit("type");
    reveal_strlit("value");
    reveal_strlit("oid_name");
    reveal_strlit("oid_module");
    reveal_strlit("oid_symbol");
    reveal_strlit("oid_instance");
    reveal_strlit("value_bytes_hex");
    reveal_strlit("value_oid_name");
    reveal_strlit("value_oid_module");
    reveal_strlit("value_oid_symbol");
    reveal_strlit("value_oid_instance");
}

/// What every event has starts with other letters, or is of another length, than the rest.
proof fn lemma_not_in_every_event(name: Seq<char>)
    requires
        is_in_every_event(name),
    ensures
        name.len() == 12 && name[1] == 'n' || name.len() == 8 && name[0] == 'p' || name.len() == 14
            && name[0] == 's' || name.len() == 9 && name[0] == 'c' || name.len() == 8 && name[0]
            == 'v' || name.len() == 7 && name[0] == 'm',
{
    reveal_strlit("snmp_version");
    reveal_strlit("pdu_type");
    reveal_strlit("source_address");
    reveal_strlit("community");
    reveal_strlit("varbinds");
    reveal_strlit("message");
}

/// The metadata has a value at the path, of the kind and with the meaning.
pub open spec fn announces(
    metadata: Seq<MetadataView>,
    place: MetadataPlace,
    path: Seq<SegmentView>,
    kind: FieldKind,
    meaning: Option<Seq<char>>,
) -> bool {
    metadata.contains(MetadataView { place, path, kind, meaning })
}

/// Among the fields of events, the name of the source, the time and the host are announced at their
/// keys, each where it has one, and nothing else is. Only the host has a meaning.
pub proof fn metadata_is_announced_at_its_keys(
    source_type: Option<Seq<SegmentView>>,
    timestamp: Option<Seq<SegmentView>>,
    host: Option<Seq<SegmentView>>,
)
    ensures
        ({
            let metadata = source_metadata(LogNamespace::Legacy, source_type, timestamp, host);
            &&& source_type matches Some(path) ==> announces(
                metadata,
                MetadataPlace::Event,
                path,
                FieldKind::Bytes,
                None,
            )
            &&& timestamp matches Some(path) ==> announces(
                metadata,
                MetadataPlace::Event,
                path,
                FieldKind::Timestamp,
                None,
            )
            &&& host matches Some(path) ==> announces(
                metadata,
                MetadataPlace::Event,
                path,
                FieldKind::Bytes,
                Some("host"@),
            )
            &&& metadata.len() == (if source_type is Some {
                1int
            } else {
                0
            }) + (if timestamp is Some {
                1int
            } else {
                0
            }) + (if host is Some {
                1int
            } else {
                0
            })
        }),
{
    let metadata = source_metadata(LogNamespace::Legacy, source_type, timestamp, host);
    if source_type is Some {
        assert(metadata[0].path == source_type->0);
    }
    if timestamp is Some {
        let at: int = if source_type is Some {
            1
        } else {
            0
        };
        assert(metadata[at].path == timestamp->0);
    }
    if host is Some {
        assert(metadata[metadata.len() - 1].path == host->0);
    }
}

/// A configured host key counts whatever the global one is, also where it says that there is none.
pub proof fn configured_host_keys_count(
    config: SnmpTrapConfig,
    left: Option<Vec<PathSegment>>,
    right: Option<Vec<PathSegment>>,
)
    ensures
        config.host_key matches Some(key) ==> config.host_path(left) == opt_path(key)
            && config.host_path(left) == config.host_path(right),
        config.host_key is None ==> config.host_path(left) == opt_path(left),
{
}

/// The fields of an event are the members of its nested value, each with its value: texts and numbers
/// as they are, and objects as an array.
pub proof fn events_keep_their_fields(
    fields: Map<Seq<char>, LogValueView>,
    name: Seq<char>,
)
    ensures
        event_tree(fields) is Object,
        event_tree(fields)->Object_0.contains_key(name) <==> fields.contains_key(name),
        fields.contains_key(name) ==> match fields[name] {
            LogValueView::Text(text) => event_tree(fields)->Object_0[name] == Tree::Text(text),
            LogValueView::Integer(number) => event_tree(fields)->Object_0[name] == Tree::Integer(
                number,
            ),
            LogValueView::Objects(objects) => event_tree(fields)->Object_0[name] == Tree::Array(
                objects,
            ),
        },
        fields.contains_key(name) ==> tree_at(event_tree(fields), seq![SegmentView::Field(name)])
            == Some(event_tree(fields)->Object_0[name]),
{
    let path = seq![SegmentView::Field(name)];
    assert(path.drop_first() =~= Seq::empty());
    reveal_with_fuel(tree_at, 2);
}

/// Objects of texts hold each text under its name, in their order.
pub proof fn objects_keep_their_texts(
    objects: Seq<Map<Seq<char>, Seq<char>>>,
    index: int,
    name: Seq<char>,
)
    requires
        0 <= index < objects.len(),
    ensures
        text_objects(objects).len() == objects.len(),
        text_objects(objects)[index] is Object,
        text_objects(objects)[index]->Object_0.contains_key(name) <==> objects[index].contains_key(
            name,
        ),
        objects[index].contains_key(name) ==> text_objects(objects)[index]->Object_0[name]
            == Tree::Text(objects[index][name]),
{
}

} // verus!
