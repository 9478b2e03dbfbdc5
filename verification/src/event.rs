//! Log events, and the collections that they are handed on in.

use crate::text::same_text;
use crate::tree::{
    array_value, insert_at, integer_value, object_value, path_view, text_value, tree_with,
    value_tree, PathSegment, SegmentView, Tree,
};
use vstd::prelude::*;
use vstd::string::*;

verus! {

/// `serde_json::Map`, a JSON object.
#[verifier::external_type_specification]
#[verifier::external_body]
#[verifier::reject_recursive_types(K)]
#[verifier::reject_recursive_types(V)]
pub struct ExJsonMap<K, V>(serde_json::Map<K, V>);

/// `serde_json::Value`, a JSON value.
#[verifier::external_type_specification]
#[verifier::external_body]
pub struct ExJsonValue(serde_json::Value);

/// The values of the members of a JSON object.
pub uninterp spec fn json_members(object: serde_json::Map<String, serde_json::Value>) -> Map<
    Seq<char>,
    Tree,
>;

/// What a JSON value holds.
pub uninterp spec fn json_tree(value: serde_json::Value) -> Tree;

/// `serde_json::Map::new` makes an object without members.
#[verifier::external_body]
pub(crate) fn json_new() -> (r: serde_json::Map<String, serde_json::Value>)
    ensures
        json_members(r).dom() == Set::<Seq<char>>::empty(),
{
    serde_json::Map::new()
}

/// `serde_json::Map::insert` gives an object a member, in place of any of the same name. The member
/// is the string `value`.
#[verifier::external_body]
pub(crate) fn json_insert(
    object: &mut serde_json::Map<String, serde_json::Value>,
    key: String,
    value: String,
)
    ensures
        json_members(*final(object)) == json_members(*old(object)).insert(
            key@,
            Tree::Text(value@),
        ),
{
    object.insert(key, serde_json::Value::String(value));
}

/// `serde_json::Value::Object` holds the members of the object it is made of.
#[verifier::external_body]
pub(crate) fn json_object(object: serde_json::Map<String, serde_json::Value>) -> (r:
    serde_json::Value)
    ensures
        json_tree(r) == Tree::Object(json_members(object)),
{
    serde_json::Value::Object(object)
}

/// `vrl::value::Value::from` makes a value that holds what a JSON value holds.
#[verifier::external_body]
fn json_value(value: serde_json::Value) -> (r: vrl::value::Value)
    ensures
        value_tree(r) == json_tree(value),
{
    vrl::value::Value::from(value)
}

/// Members that are texts.
pub open spec fn text_members(fields: Map<Seq<char>, Seq<char>>) -> Map<Seq<char>, Tree> {
    fields.map_values(|text: Seq<char>| Tree::Text(text))
}

/// What is more of the texts is more of the members.
pub proof fn lemma_text_members_union(
    left: Map<Seq<char>, Seq<char>>,
    right: Map<Seq<char>, Seq<char>>,
)
    ensures
        text_members(left.union_prefer_right(right)) == text_members(left).union_prefer_right(
            text_members(right),
        ),
{
    assert(text_members(left.union_prefer_right(right)) =~= text_members(left).union_prefer_right(
        text_members(right),
    ));
}

/// Objects whose members are texts.
pub open spec fn text_objects(objects: Seq<Map<Seq<char>, Seq<char>>>) -> Seq<Tree> {
    objects.map_values(|fields: Map<Seq<char>, Seq<char>>| Tree::Object(text_members(fields)))
}

/// A value of a log event.
#[derive(Debug)]
pub enum LogValue {
    Text(String),
    Integer(i64),
    /// JSON objects.
    Objects(Vec<serde_json::Value>),
}

/// A [`LogValue`] as mathematical values.
pub ghost enum LogValueView {
    Text(Seq<char>),
    Integer(i64),
    Objects(Seq<Tree>),
}

/// What each of the JSON values holds.
pub open spec fn objects_view(objects: Seq<serde_json::Value>) -> Seq<Tree> {
    objects.map_values(|object: serde_json::Value| json_tree(object))
}

impl View for LogValue {
    type V = LogValueView;

    open spec fn view(&self) -> LogValueView {
        match self {
            LogValue::Text(text) => LogValueView::Text(text@),
            LogValue::Integer(number) => LogValueView::Integer(*number),
            LogValue::Objects(objects) => LogValueView::Objects(objects_view(objects@)),
        }
    }
}

/// A log event: named values.
#[derive(Debug)]
pub struct LogEvent {
    fields: Vec<(String, LogValue)>,
}

/// The value of each field; of several fields of one name the last counts.
pub open spec fn fields_map(fields: Seq<(String, LogValue)>) -> Map<Seq<char>, LogValueView>
    decreases fields.len(),
{
    if fields.len() == 0 {
        Map::empty()
    } else {
        fields_map(fields.drop_last()).insert(fields.last().0@, fields.last().1@)
    }
}

impl View for LogEvent {
    type V = Map<Seq<char>, LogValueView>;

    closed spec fn view(&self) -> Map<Seq<char>, LogValueView> {
        fields_map(self.fields@)
    }
}

/// The last field of its name gives the value.
proof fn lemma_last_field(fields: Seq<(String, LogValue)>, at: int)
    requires
        0 <= at < fields.len(),
        forall|later: int|
            at < later < fields.len() ==> (#[trigger] fields[later]).0@ != fields[at].0@,
    ensures
        fields_map(fields).contains_key(fields[at].0@),
        fields_map(fields)[fields[at].0@] == fields[at].1@,
    decreases fields.len(),
{
    if at < fields.len() - 1 {
        let front = fields.drop_last();
        assert forall|later: int| at < later < front.len() implies (#[trigger] front[later]).0@
            != front[at].0@ by {
            assert(front[later] == fields[later]);
        }
        lemma_last_field(front, at);
        assert(fields[fields.len() - 1].0@ != fields[at].0@);
    }
}

/// A name that no field has has no value.
proof fn lemma_no_field(fields: Seq<(String, LogValue)>, name: Seq<char>)
    requires
        forall|at: int| 0 <= at < fields.len() ==> (#[trigger] fields[at]).0@ != name,
    ensures
        !fields_map(fields).contains_key(name),
    decreases fields.len(),
{
    if fields.len() > 0 {
        let front = fields.drop_last();
        assert forall|at: int| 0 <= at < front.len() implies (#[trigger] front[at]).0@ != name by {
            assert(front[at] == fields[at]);
        }
        lemma_no_field(front, name);
        assert(fields[fields.len() - 1].0@ != name);
    }
}

/// Replacing the last field of a name replaces the value of the name.
proof fn lemma_replaced_field(
    fields: Seq<(String, LogValue)>,
    at: int,
    field: (String, LogValue),
)
    requires
        0 <= at < fields.len(),
        field.0@ == fields[at].0@,
        forall|later: int|
            at < later < fields.len() ==> (#[trigger] fields[later]).0@ != fields[at].0@,
    ensures
        fields_map(fields.update(at, field)) == fields_map(fields).insert(field.0@, field.1@),
    decreases fields.len(),
{
    let front = fields.drop_last();
    let after = fields.update(at, field);
    if at < fields.len() - 1 {
        assert forall|later: int| at < later < front.len() implies (#[trigger] front[later]).0@
            != front[at].0@ by {
            assert(front[later] == fields[later]);
        }
        lemma_replaced_field(front, at, field);
        assert(after.drop_last() =~= front.update(at, field));
        assert(after.last() == fields.last());
        assert(fields[fields.len() - 1].0@ != fields[at].0@);
        assert(fields_map(after) =~= fields_map(fields).insert(field.0@, field.1@));
    } else {
        assert(after.drop_last() =~= front);
        assert(fields_map(after) =~= fields_map(fields).insert(field.0@, field.1@));
    }
}

impl LogEvent {
    /// An event without fields.
    pub fn new() -> (r: LogEvent)
        ensures
            r@ == Map::<Seq<char>, LogValueView>::empty(),
    {
        LogEvent { fields: Vec::new() }
    }

    fn position(&self, name: &str) -> (r: Option<usize>)
        ensures
            match r {
                Some(at) => {
                    &&& at < self.fields@.len()
                    &&& self.fields@[at as int].0@ == name@
                    &&& forall|later: int|
                        at < later < self.fields@.len() ==> (#[trigger] self.fields@[later]).0@
                            != name@
                },
                None => forall|at: int|
                    0 <= at < self.fields@.len() ==> (#[trigger] self.fields@[at]).0@ != name@,
            },
    {
        let mut index: usize = self.fields.len();
        while index > 0
            invariant
                index <= self.fields@.len(),
                forall|later: int|
                    index <= later < self.fields@.len() ==> (#[trigger] self.fields@[later]).0@
                        != name@,
            decreases index,
        {
            index -= 1;
            if same_text(self.fields[index].0.as_str(), name) {
                return Some(index);
            }
        }
        None
    }

    /// Gives a field a value, in place of any that it had.
    pub fn insert(&mut self, name: &str, value: LogValue)
        ensures
            final(self)@ == old(self)@.insert(name@, value@),
    {
        match self.position(name) {
            Some(at) => {
                let ghost before = self.fields@;
                let field: (String, LogValue) = (name.to_owned(), value);
                proof {
                    lemma_replaced_field(before, at as int, field);
                }
                self.fields.set(at, field);
            },
            None => {
                let ghost before = self.fields@;
                self.fields.push((name.to_owned(), value));
                assert(self.fields@.drop_last() =~= before);
            },
        }
    }

    /// The value of a field.
    pub fn get(&self, name: &str) -> (r: Option<&LogValue>)
        ensures
            match r {
                Some(value) => self@.contains_key(name@) && value@ == self@[name@],
                None => !self@.contains_key(name@),
            },
    {
        match self.position(name) {
            Some(at) => {
                proof {
                    lemma_last_field(self.fields@, at as int);
                }
                Some(&self.fields[at].1)
            },
            None => {
                proof {
                    lemma_no_field(self.fields@, name@);
                }
                None
            },
        }
    }

    /// The fields of the event.
    pub fn into_fields(self) -> (r: Vec<(String, LogValue)>)
        ensures
            fields_map(r@) == self@,
    {
        self.fields
    }
}

/// A value of a log event as a nested value.
pub open spec fn log_value_tree(value: LogValueView) -> Tree {
    match value {
        LogValueView::Text(text) => Tree::Text(text),
        LogValueView::Integer(number) => Tree::Integer(number),
        LogValueView::Objects(objects) => Tree::Array(objects),
    }
}

/// A log event as a nested value: an object of its fields.
pub open spec fn event_tree(fields: Map<Seq<char>, LogValueView>) -> Tree {
    Tree::Object(fields.map_values(|value: LogValueView| log_value_tree(value)))
}

fn objects_value(objects: Vec<serde_json::Value>) -> (r: vrl::value::Value)
    ensures
        value_tree(r) == Tree::Array(objects_view(objects@)),
{
    let mut items: Vec<vrl::value::Value> = Vec::new();
    for object in it: objects
        invariant
            items@.len() == it.index(),
            it.seq() == objects@,
            forall|i: int|
                0 <= i < it.index() ==> value_tree(#[trigger] items@[i]) == json_tree(objects@[i]),
    {
        items.push(json_value(object));
    }
    assert(items@.map_values(|item: vrl::value::Value| value_tree(item)) =~= objects_view(
        objects@,
    ));
    array_value(items)
}

fn log_value(value: LogValue) -> (r: vrl::value::Value)
    ensures
        value_tree(r) == log_value_tree(value@),
{
    match value {
        LogValue::Text(text) => text_value(text),
        LogValue::Integer(number) => integer_value(number),
        LogValue::Objects(objects) => objects_value(objects),
    }
}

/// A log event as a nested value.
pub fn event_value(event: LogEvent) -> (r: vrl::value::Value)
    ensures
        value_tree(r) == event_tree(event@),
{
    let fields = event.into_fields();
    let mut value = object_value();
    let ghost all = fields@;
    assert(event_tree(fields_map(all.take(0))) == Tree::Object(Map::empty())) by {
        assert(all.take(0).len() == 0);
        assert(fields_map(all.take(0)).map_values(|value: LogValueView| log_value_tree(value))
            =~= Map::empty());
    }
    for field in it: fields
        invariant
            it.seq() == all,
            value_tree(value) == event_tree(fields_map(all.take(it.index() as int))),
    {
        let ghost front = all.take(it.index() as int);
        let ghost next = all.take(it.index() + 1);
        let mut path: Vec<PathSegment> = Vec::new();
        let ghost before = value_tree(value);
        let ghost added = log_value_tree(field.1@);
        let ghost name = field.0@;
        path.push(PathSegment::Field(field.0));
        insert_at(&mut value, &path, log_value(field.1));
        proof {
            assert(next.drop_last() =~= front);
            let view = path_view(path@);
            assert(view =~= seq![SegmentView::Field(name)]);
            assert(view.drop_first() =~= Seq::empty());
            reveal_with_fuel(tree_with, 2);
            assert(fields_map(next).map_values(|value: LogValueView| log_value_tree(value))
                =~= fields_map(front).map_values(
                |value: LogValueView| log_value_tree(value),
            ).insert(name, added));
        }
    }
    assert(all.take(all.len() as int) =~= all);
    value
}

/// Log events in a `smallvec::SmallVec`, which keeps a single one without an allocation.
#[derive(Debug)]
#[verifier::external_body]
pub struct EventBatch {
    events: smallvec::SmallVec<[LogEvent; 1]>,
}

/// The events of a batch, in order.
pub uninterp spec fn batch_events(batch: EventBatch) -> Seq<Map<Seq<char>, LogValueView>>;

/// `smallvec::SmallVec::from_buf` makes a collection of the items of an array.
#[verifier::external_body]
pub(crate) fn batch_of(event: LogEvent) -> (r: EventBatch)
    ensures
        batch_events(r) == seq![event@],
{
    EventBatch { events: smallvec::SmallVec::from_buf([event]) }
}

/// `smallvec::SmallVec::as_slice` gives the items in order.
#[verifier::external_body]
pub(crate) fn batch_slice(batch: &EventBatch) -> (r: &[LogEvent])
    ensures
        r@.map_values(|event: LogEvent| event@) == batch_events(*batch),
{
    batch.events.as_slice()
}

/// `smallvec::SmallVec::into_vec` gives the items in order.
#[verifier::external_body]
pub(crate) fn batch_vec(batch: EventBatch) -> (r: Vec<LogEvent>)
    ensures
        r@.map_values(|event: LogEvent| event@) == batch_events(batch),
{
    batch.events.into_vec()
}

impl View for EventBatch {
    type V = Seq<Map<Seq<char>, LogValueView>>;

    open spec fn view(&self) -> Seq<Map<Seq<char>, LogValueView>> {
        batch_events(*self)
    }
}

impl EventBatch {
    /// The number of events.
    pub fn len(&self) -> (r: usize)
        ensures
            r == self@.len(),
    {
        let events = batch_slice(self);
        assert(events@.map_values(|event: LogEvent| event@).len() == events@.len());
        events.len()
    }

    /// The event at an index.
    pub fn get(&self, index: usize) -> (r: Option<&LogEvent>)
        ensures
            match r {
                Some(event) => index < self@.len() && event@ == self@[index as int],
                None => index >= self@.len(),
            },
    {
        let events = batch_slice(self);
        assert(events@.map_values(|event: LogEvent| event@).len() == events@.len());
        if index < events.len() {
            Some(&events[index])
        } else {
            None
        }
    }

    /// The events, in order.
    pub fn into_events(self) -> (r: Vec<LogEvent>)
        ensures
            r@.map_values(|event: LogEvent| event@) == self@,
    {
        batch_vec(self)
    }
}

} // verus!
