//! The configuration of the source, and the events that it announces.

use crate::enrich::{LogNamespace, MetadataKeys};
use crate::text::opt_str;
use crate::tree::{
    copy_opt_path, nested_field, nested_path, opt_path, path_view, PathSegment, SegmentView,
};
use vstd::prelude::*;
use vstd::string::*;

verus! {

/// The kind of a field.
#[derive(Clone, Copy, Debug, PartialEq, Eq, Structural)]
pub enum FieldKind {
    Bytes,
    Integer,
    Timestamp,
    /// An array of the objects that variable bindings are.
    Objects,
}

/// A field that events may have.
#[derive(Clone, Debug, PartialEq, Eq)]
pub struct SchemaField {
    pub name: String,
    pub kind: FieldKind,
    /// Whether events may lack the field.
    pub optional: bool,
    /// What the field means to other components.
    pub meaning: Option<&'static str>,
}

/// A [`SchemaField`] as characters.
pub ghost struct FieldView {
    pub name: Seq<char>,
    pub kind: FieldKind,
    pub optional: bool,
    pub meaning: Option<Seq<char>>,
}

impl View for SchemaField {
    type V = FieldView;

    open spec fn view(&self) -> FieldView {
        FieldView {
            name: self.name@,
            kind: self.kind,
            optional: self.optional,
            meaning: opt_str(self.meaning),
        }
    }
}

pub open spec fn schema_view(fields: Seq<SchemaField>) -> Seq<FieldView> {
    fields.map_values(|field: SchemaField| field@)
}

/// A field without a meaning.
pub open spec fn field(name: Seq<char>, kind: FieldKind, optional: bool) -> FieldView {
    FieldView { name, kind, optional, meaning: None }
}

/// The fields of events.
pub open spec fn event_schema() -> Seq<FieldView> {
    seq![
        field("snmp_version"@, FieldKind::Bytes, false),
        field("pdu_type"@, FieldKind::Bytes, false),
        field("source_address"@, FieldKind::Bytes, false),
        field("community"@, FieldKind::Bytes, false),
        field("enterprise_oid"@, FieldKind::Bytes, true),
        field("enterprise_oid_name"@, FieldKind::Bytes, true),
        field("enterprise_oid_module"@, FieldKind::Bytes, true),
        field("enterprise_oid_symbol"@, FieldKind::Bytes, true),
        field("enterprise_oid_instance"@, FieldKind::Bytes, true),
        field("agent_address"@, FieldKind::Bytes, true),
        field("generic_trap"@, FieldKind::Integer, true),
        field("generic_trap_name"@, FieldKind::Bytes, true),
        field("specific_trap"@, FieldKind::Integer, true),
        field("request_id"@, FieldKind::Integer, true),
        field("trap_oid"@, FieldKind::Bytes, true),
        field("trap_oid_name"@, FieldKind::Bytes, true),
        field("trap_oid_module"@, FieldKind::Bytes, true),
        field("trap_oid_symbol"@, FieldKind::Bytes, true),
        field("trap_oid_instance"@, FieldKind::Bytes, true),
        field("uptime"@, FieldKind::Integer, true),
        field("varbinds"@, FieldKind::Objects, false),
        FieldView {
            name: "message"@,
            kind: FieldKind::Bytes,
            optional: false,
            meaning: Some("message"@),
        },
    ]
}

/// The fields of variable bindings.
pub open spec fn varbind_schema() -> Seq<FieldView> {
    seq![
        field("oid"@, FieldKind::Bytes, false),
        field("oid_name"@, FieldKind::Bytes, true),
        field("oid_module"@, FieldKind::Bytes, true),
        field("oid_symbol"@, FieldKind::Bytes, true),
        field("oid_instance"@, FieldKind::Bytes, true),
        field("type"@, FieldKind::Bytes, false),
        field("value"@, FieldKind::Bytes, false),
        field("value_bytes_hex"@, FieldKind::Bytes, true),
        field("value_oid_name"@, FieldKind::Bytes, true),
        field("value_oid_module"@, FieldKind::Bytes, true),
        field("value_oid_symbol"@, FieldKind::Bytes, true),
        field("value_oid_instance"@, FieldKind::Bytes, true),
    ]
}

/// What metadata belongs to.
#[derive(Clone, Copy, Debug, PartialEq, Eq, Structural)]
pub enum MetadataPlace {
    /// The fields of the event, where there is no value yet.
    Event,
    /// What goes beside the event.
    Beside,
}

/// A value that the source adds to its events.
#[derive(Clone, Debug, PartialEq, Eq)]
pub struct MetadataField {
    pub place: MetadataPlace,
    pub path: Vec<PathSegment>,
    pub kind: FieldKind,
    /// What the value means to other components.
    pub meaning: Option<&'static str>,
}

/// A [`MetadataField`] as mathematical values.
pub ghost struct MetadataView {
    pub place: MetadataPlace,
    pub path: Seq<SegmentView>,
    pub kind: FieldKind,
    pub meaning: Option<Seq<char>>,
}

impl View for MetadataField {
    type V = MetadataView;

    open spec fn view(&self) -> MetadataView {
        MetadataView {
            place: self.place,
            path: path_view(self.path@),
            kind: self.kind,
            meaning: opt_str(self.meaning),
        }
    }
}

pub open spec fn metadata_view(fields: Seq<MetadataField>) -> Seq<MetadataView> {
    fields.map_values(|field: MetadataField| field@)
}

/// A value among the fields of events, where there is a place for it.
pub open spec fn among_fields(
    key: Option<Seq<SegmentView>>,
    kind: FieldKind,
    meaning: Option<Seq<char>>,
) -> Seq<MetadataView> {
    match key {
        Some(path) => seq![MetadataView { place: MetadataPlace::Event, path, kind, meaning }],
        None => Seq::empty(),
    }
}

/// A value beside events.
pub open spec fn beside_event(
    path: Seq<SegmentView>,
    kind: FieldKind,
    meaning: Option<Seq<char>>,
) -> MetadataView {
    MetadataView { place: MetadataPlace::Beside, path, kind, meaning }
}

/// What the source adds to its events: its name, the time and the peer host.
pub open spec fn source_metadata(
    namespace: LogNamespace,
    source_type_key: Option<Seq<SegmentView>>,
    timestamp_key: Option<Seq<SegmentView>>,
    host_key: Option<Seq<SegmentView>>,
) -> Seq<MetadataView> {
    match namespace {
        LogNamespace::Legacy => among_fields(source_type_key, FieldKind::Bytes, None)
            + among_fields(timestamp_key, FieldKind::Timestamp, None) + among_fields(
            host_key,
            FieldKind::Bytes,
            Some("host"@),
        ),
        LogNamespace::Vector => seq![
            beside_event(nested_path("vector"@, "source_type"@), FieldKind::Bytes, None),
            beside_event(nested_path("vector"@, "ingest_timestamp"@), FieldKind::Timestamp, None),
            beside_event(nested_path("snmp_trap"@, "host"@), FieldKind::Bytes, Some("host"@)),
        ],
    }
}

/// What the source announces of its events.
pub struct EventSchema {
    pub fields: Vec<SchemaField>,
    pub varbind_fields: Vec<SchemaField>,
    /// What the source adds to its events, in this order.
    pub metadata: Vec<MetadataField>,
}

/// Where every source puts its metadata by default.
pub struct LogSchema {
    pub host_key: Option<Vec<PathSegment>>,
    pub source_type_key: Option<Vec<PathSegment>>,
    pub timestamp_key: Option<Vec<PathSegment>>,
}

fn announce_at_key(
    fields: &mut Vec<MetadataField>,
    key: &Option<Vec<PathSegment>>,
    kind: FieldKind,
    meaning: Option<&'static str>,
)
    ensures
        metadata_view(final(fields)@) == metadata_view(old(fields)@) + among_fields(
            opt_path(*key),
            kind,
            opt_str(meaning),
        ),
{
    let ghost before = metadata_view(fields@);
    if let Some(path) = copy_opt_path(key) {
        let announced = MetadataField { place: MetadataPlace::Event, path, kind, meaning };
        fields.push(announced);
        assert(metadata_view(fields@) =~= before + seq![announced@]);
    }
}

fn announce_beside(
    fields: &mut Vec<MetadataField>,
    path: Vec<PathSegment>,
    kind: FieldKind,
    meaning: Option<&'static str>,
)
    ensures
        metadata_view(final(fields)@) == metadata_view(old(fields)@).push(
            beside_event(path_view(path@), kind, opt_str(meaning)),
        ),
{
    let ghost before = metadata_view(fields@);
    let announced = MetadataField { place: MetadataPlace::Beside, path, kind, meaning };
    fields.push(announced);
    assert(metadata_view(fields@) =~= before.push(announced@));
}

fn declare(
    fields: &mut Vec<SchemaField>,
    name: &str,
    kind: FieldKind,
    optional: bool,
    meaning: Option<&'static str>,
)
    ensures
        schema_view(final(fields)@) == schema_view(old(fields)@).push(
            (FieldView { name: name@, kind, optional, meaning: opt_str(meaning) }),
        ),
{
    let ghost before = schema_view(fields@);
    let declared = SchemaField { name: name.to_owned(), kind, optional, meaning };
    fields.push(declared);
    assert(schema_view(fields@) =~= before.push(declared@));
}

/// Configuration for the source.
pub struct SnmpTrapConfig {
    /// The address to listen for SNMP traps on. SNMP traps are typically sent to UDP port 162.
    pub address: String,
    /// The size of the receive buffer used for the listening socket, in bytes.
    pub receive_buffer_bytes: Option<usize>,
    /// Overrides the path of the field used to add the peer host to each event. `Some(None)`
    /// suppresses the field; by default, the global host key is used.
    pub host_key: Option<Option<Vec<PathSegment>>>,
    /// MIB files or directories to load for OID name resolution. Numeric OIDs are always preserved,
    /// and resolved names are added in separate metadata fields.
    pub mib_paths: Vec<String>,
    /// The namespace to use for logs. This overrides the global setting.
    pub log_namespace: Option<bool>,
}

impl Default for SnmpTrapConfig {
    fn default() -> (r: SnmpTrapConfig)
        ensures
            r.address@ == "0.0.0.0:162"@,
            r.receive_buffer_bytes is None,
            r.host_key is None,
            r.mib_paths@.len() == 0,
            r.log_namespace is None,
    {
        SnmpTrapConfig {
            address: "0.0.0.0:162".to_owned(),
            receive_buffer_bytes: None,
            host_key: None,
            mib_paths: Vec::new(),
            log_namespace: None,
        }
    }
}

impl SnmpTrapConfig {
    /// Where in an event the peer host goes.
    pub open spec fn host_path(self, global_host_key: Option<Vec<PathSegment>>) -> Option<
        Seq<SegmentView>,
    > {
        match self.host_key {
            Some(host_key) => opt_path(host_key),
            None => opt_path(global_host_key),
        }
    }

    /// Where in an event the peer host goes: to the configured path, or to the global one where none
    /// is configured.
    pub fn host_key(&self, global_host_key: &Option<Vec<PathSegment>>) -> (r: Option<
        Vec<PathSegment>,
    >)
        ensures
            opt_path(r) == self.host_path(*global_host_key),
    {
        match &self.host_key {
            Some(host_key) => copy_opt_path(host_key),
            None => copy_opt_path(global_host_key),
        }
    }

    /// Where in an event the metadata of the source goes.
    pub fn metadata_keys(&self, log_schema: &LogSchema) -> (r: MetadataKeys)
        ensures
            opt_path(r.source_type) == opt_path(log_schema.source_type_key),
            opt_path(r.timestamp) == opt_path(log_schema.timestamp_key),
            opt_path(r.host) == self.host_path(log_schema.host_key),
    {
        MetadataKeys {
            source_type: copy_opt_path(&log_schema.source_type_key),
            timestamp: copy_opt_path(&log_schema.timestamp_key),
            host: self.host_key(&log_schema.host_key),
        }
    }

    /// The namespace of the events: the configured one, or the global one where none is configured.
    pub fn log_namespace(&self, global_log_namespace: LogNamespace) -> (r: LogNamespace)
        ensures
            r == match self.log_namespace {
                Some(true) => LogNamespace::Vector,
                Some(false) => LogNamespace::Legacy,
                None => global_log_namespace,
            },
    {
        match self.log_namespace {
            Some(true) => LogNamespace::Vector,
            Some(false) => LogNamespace::Legacy,
            None => global_log_namespace,
        }
    }

    /// What the source adds to its events: its name, the time and the peer host. They go among the
    /// fields of an event, to the paths that are configured, or beside it.
    pub fn metadata_fields(&self, log_namespace: LogNamespace, log_schema: &LogSchema) -> (r: Vec<
        MetadataField,
    >)
        ensures
            metadata_view(r@) == source_metadata(
                log_namespace,
                opt_path(log_schema.source_type_key),
                opt_path(log_schema.timestamp_key),
                self.host_path(log_schema.host_key),
            ),
    {
        let mut fields: Vec<MetadataField> = Vec::new();
        assert(metadata_view(fields@) =~= Seq::empty());
        match log_namespace {
            LogNamespace::Legacy => {
                announce_at_key(&mut fields, &log_schema.source_type_key, FieldKind::Bytes, None);
                announce_at_key(&mut fields, &log_schema.timestamp_key, FieldKind::Timestamp, None);
                let host_key = self.host_key(&log_schema.host_key);
                announce_at_key(&mut fields, &host_key, FieldKind::Bytes, Some("host"));
            },
            LogNamespace::Vector => {
                let source_type = nested_field("vector", "source_type");
                announce_beside(&mut fields, source_type, FieldKind::Bytes, None);
                let ingest_timestamp = nested_field("vector", "ingest_timestamp");
                announce_beside(&mut fields, ingest_timestamp, FieldKind::Timestamp, None);
                let host = nested_field("snmp_trap", "host");
                announce_beside(&mut fields, host, FieldKind::Bytes, Some("host"));
            },
        }
        assert(metadata_view(fields@) =~= source_metadata(
            log_namespace,
            opt_path(log_schema.source_type_key),
            opt_path(log_schema.timestamp_key),
            self.host_path(log_schema.host_key),
        ));
        fields
    }

    /// What the source announces of its events.
    pub fn schema_definition(&self, log_namespace: LogNamespace, log_schema: &LogSchema) -> (r:
        EventSchema)
        ensures
            schema_view(r.fields@) == event_schema(),
            schema_view(r.varbind_fields@) == varbind_schema(),
            metadata_view(r.metadata@) == source_metadata(
                log_namespace,
                opt_path(log_schema.source_type_key),
                opt_path(log_schema.timestamp_key),
                self.host_path(log_schema.host_key),
            ),
    {
        let mut varbind_fields: Vec<SchemaField> = Vec::new();
        assert(schema_view(varbind_fields@) =~= Seq::empty());
        declare(&mut varbind_fields, "oid", FieldKind::Bytes, false, None);
        declare(&mut varbind_fields, "oid_name", FieldKind::Bytes, true, None);
        declare(&mut varbind_fields, "oid_module", FieldKind::Bytes, true, None);
        declare(&mut varbind_fields, "oid_symbol", FieldKind::Bytes, true, None);
        declare(&mut varbind_fields, "oid_instance", FieldKind::Bytes, true, None);
        declare(&mut varbind_fields, "type", FieldKind::Bytes, false, None);
        declare(&mut varbind_fields, "value", FieldKind::Bytes, false, None);
        declare(&mut varbind_fields, "value_bytes_hex", FieldKind::Bytes, true, None);
        declare(&mut varbind_fields, "value_oid_name", FieldKind::Bytes, true, None);
        declare(&mut varbind_fields, "value_oid_module", FieldKind::Bytes, true, None);
        declare(&mut varbind_fields, "value_oid_symbol", FieldKind::Bytes, true, None);
        declare(&mut varbind_fields, "value_oid_instance", FieldKind::Bytes, true, None);
        assert(schema_view(varbind_fields@) =~= varbind_schema());
        let mut fields: Vec<SchemaField> = Vec::new();
        assert(schema_view(fields@) =~= Seq::empty());
        declare(&mut fields, "snmp_version", FieldKind::Bytes, false, None);
        declare(&mut fields, "pdu_type", FieldKind::Bytes, false, None);
        declare(&mut fields, "source_address", FieldKind::Bytes, false, None);
        declare(&mut fields, "community", FieldKind::Bytes, false, None);
        declare(&mut fields, "enterprise_oid", FieldKind::Bytes, true, None);
        declare(&mut fields, "enterprise_oid_name", FieldKind::Bytes, true, None);
        declare(&mut fields, "enterprise_oid_module", FieldKind::Bytes, true, None);
        declare(&mut fields, "enterprise_oid_symbol", FieldKind::Bytes, true, None);
        declare(&mut fields, "enterprise_oid_instance", FieldKind::Bytes, true, None);
        declare(&mut fields, "agent_address", FieldKind::Bytes, true, None);
        declare(&mut fields, "generic_trap", FieldKind::Integer, true, None);
        declare(&mut fields, "generic_trap_name", FieldKind::Bytes, true, None);
        declare(&mut fields, "specific_trap", FieldKind::Integer, true, None);
        declare(&mut fields, "request_id", FieldKind::Integer, true, None);
        declare(&mut fields, "trap_oid", FieldKind::Bytes, true, None);
        declare(&mut fields, "trap_oid_name", FieldKind::Bytes, true, None);
        declare(&mut fields, "trap_oid_module", FieldKind::Bytes, true, None);
        declare(&mut fields, "trap_oid_symbol", FieldKind::Bytes, true, None);
        declare(&mut fields, "trap_oid_instance", FieldKind::Bytes, true, None);
        declare(&mut fields, "uptime", FieldKind::Integer, true, None);
        declare(&mut fields, "varbinds", FieldKind::Objects, false, None);
        declare(&mut fields, "message", FieldKind::Bytes, false, Some("message"));
        assert(schema_view(fields@) =~= event_schema());
        EventSchema {
            fields,
            varbind_fields,
            metadata: self.metadata_fields(log_namespace, log_schema),
        }
    }

    /// The source cannot acknowledge its events to the sender when they are delivered.
    pub fn can_acknowledge(&self) -> (r: bool)
        ensures
            !r,
    {
        false
    }
}

} // verus!
