//! Events as the nested values that other components work on, and the paths into them.

use vstd::prelude::*;
use vstd::string::*;

verus! {

/// One step of a path into a nested value.
#[derive(Clone, Debug, PartialEq, Eq)]
pub enum PathSegment {
    /// To a member of an object.
    Field(String),
    /// To an item of an array; a negative number counts from the end.
    Index(isize),
}

/// A [`PathSegment`] as mathematical values.
pub ghost enum SegmentView {
    Field(Seq<char>),
    Index(int),
}

impl View for PathSegment {
    type V = SegmentView;

    open spec fn view(&self) -> SegmentView {
        match self {
            PathSegment::Field(name) => SegmentView::Field(name@),
            PathSegment::Index(index) => SegmentView::Index(*index as int),
        }
    }
}

/// A path as mathematical values.
pub open spec fn path_view(path: Seq<PathSegment>) -> Seq<SegmentView> {
    path.map_values(|segment: PathSegment| segment@)
}

/// An optional path as mathematical values.
pub open spec fn opt_path(path: Option<Vec<PathSegment>>) -> Option<Seq<SegmentView>> {
    match path {
        Some(path) => Some(path_view(path@)),
        None => None,
    }
}

/// A copy of a path.
pub fn copy_path(path: &Vec<PathSegment>) -> (r: Vec<PathSegment>)
    ensures
        path_view(r@) == path_view(path@),
{
    let mut copy: Vec<PathSegment> = Vec::new();
    for index in 0..path.len()
        invariant
            path_view(copy@) == path_view(path@).take(index as int),
    {
        let ghost before = path_view(copy@);
        let segment: PathSegment = match &path[index] {
            PathSegment::Field(name) => PathSegment::Field(name.clone()),
            PathSegment::Index(index) => PathSegment::Index(*index),
        };
        copy.push(segment);
        assert(path_view(copy@) =~= before.push(segment@));
        assert(path_view(path@).take(index + 1) =~= before.push(path_view(path@)[index as int]));
    }
    assert(path_view(path@).take(path@.len() as int) =~= path_view(path@));
    copy
}

/// A copy of an optional path.
pub fn copy_opt_path(path: &Option<Vec<PathSegment>>) -> (r: Option<Vec<PathSegment>>)
    ensures
        opt_path(r) == opt_path(*path),
{
    match path {
        Some(path) => Some(copy_path(path)),
        None => None,
    }
}

/// The path to a member of a member.
pub open spec fn nested_path(outer: Seq<char>, inner: Seq<char>) -> Seq<SegmentView> {
    seq![SegmentView::Field(outer), SegmentView::Field(inner)]
}

/// Makes the path to a member of a member.
pub fn nested_field(outer: &str, inner: &str) -> (r: Vec<PathSegment>)
    ensures
        path_view(r@) == nested_path(outer@, inner@),
{
    let mut path: Vec<PathSegment> = Vec::new();
    path.push(PathSegment::Field(outer.to_owned()));
    path.push(PathSegment::Field(inner.to_owned()));
    assert(path_view(path@) =~= nested_path(outer@, inner@));
    path
}

/// `vrl::value::Value`, a nested value.
#[verifier::external_type_specification]
#[verifier::external_body]
pub struct ExTreeValue(vrl::value::Value);

/// `vrl::path::OwnedValuePath`, a path into a nested value.
#[verifier::external_type_specification]
#[verifier::external_body]
pub struct ExTreePath(vrl::path::OwnedValuePath);

/// A nested value as mathematical values.
pub ghost enum Tree {
    Null,
    Integer(i64),
    Text(Seq<char>),
    Object(Map<Seq<char>, Tree>),
    Array(Seq<Tree>),
    /// Any other value, which holds no values.
    Other(vrl::value::Value),
}

/// What a nested value holds.
pub uninterp spec fn value_tree(value: vrl::value::Value) -> Tree;

/// The segments of a path.
pub uninterp spec fn path_segments(path: vrl::path::OwnedValuePath) -> Seq<SegmentView>;

/// Where a position in an array lies, counted from its end where it is negative.
pub open spec fn array_index(items: Seq<Tree>, index: int) -> int {
    if index < 0 {
        items.len() + index
    } else {
        index
    }
}

/// What is at a path: each segment leads to a member of an object or an item of an array, and there
/// is nothing where it does not.
pub open spec fn tree_at(tree: Tree, path: Seq<SegmentView>) -> Option<Tree>
    decreases path.len(),
{
    if path.len() == 0 {
        Some(tree)
    } else {
        match (path[0], tree) {
            (SegmentView::Field(name), Tree::Object(members)) => if members.contains_key(name) {
                tree_at(members[name], path.drop_first())
            } else {
                None
            },
            (SegmentView::Index(index), Tree::Array(items)) => if 0 <= array_index(items, index)
                < items.len() {
                tree_at(items[array_index(items, index)], path.drop_first())
            } else {
                None
            },
            _ => None,
        }
    }
}

/// The members of an object; other values have none.
pub open spec fn members_of(tree: Tree) -> Map<Seq<char>, Tree> {
    match tree {
        Tree::Object(members) => members,
        _ => Map::empty(),
    }
}

/// The items of an array; other values have none.
pub open spec fn items_of(tree: Tree) -> Seq<Tree> {
    match tree {
        Tree::Array(items) => items,
        _ => Seq::empty(),
    }
}

/// Items with as many nulls as it takes for there to be one at the position: behind them, or before
/// them where the position counts from the end.
pub open spec fn padded(items: Seq<Tree>, index: int) -> Seq<Tree> {
    if index >= items.len() {
        items + Seq::new((index + 1 - items.len()) as nat, |i: int| Tree::Null)
    } else if index < 0 && -index > items.len() {
        Seq::new((-index - items.len()) as nat, |i: int| Tree::Null) + items
    } else {
        items
    }
}

/// The tree with a value put at a path. A segment makes what it leads through an object or an array
/// where it is not one.
pub open spec fn tree_with(tree: Tree, path: Seq<SegmentView>, value: Tree) -> Tree
    decreases path.len(),
{
    if path.len() == 0 {
        value
    } else {
        match path[0] {
            SegmentView::Field(name) => {
                let members = members_of(tree);
                let inner = if members.contains_key(name) {
                    members[name]
                } else {
                    Tree::Null
                };
                Tree::Object(members.insert(name, tree_with(inner, path.drop_first(), value)))
            },
            SegmentView::Index(index) => {
                let items = padded(items_of(tree), index);
                let at = array_index(items, index);
                Tree::Array(items.update(at, tree_with(items[at], path.drop_first(), value)))
            },
        }
    }
}

/// The length of the shortest array with an item at the position.
pub open spec fn length_for(index: int) -> int {
    if index < 0 {
        -index
    } else {
        index + 1
    }
}

/// Arrays can have items at the positions of a path: memory holds no array of more than `isize::MAX`
/// bytes, and half of that leaves an array the room that it grows by.
pub open spec fn has_room(path: Seq<SegmentView>) -> bool {
    forall|i: int|
        0 <= i < path.len() ==> ((#[trigger] path[i]) matches SegmentView::Index(index)
            ==> length_for(index) * vstd::layout::size_of::<vrl::value::Value>() <= isize::MAX / 2)
}

fn position_has_room(position: isize) -> (r: bool)
    ensures
        r == (length_for(position as int) * vstd::layout::size_of::<vrl::value::Value>()
            <= isize::MAX / 2),
{
    let length: usize = if position < 0 {
        (-(position + 1)) as usize + 1
    } else {
        position as usize + 1
    };
    match length.checked_mul(core::mem::size_of::<vrl::value::Value>()) {
        Some(bytes) => bytes <= isize::MAX as usize / 2,
        None => false,
    }
}

/// Whether arrays can have items at the positions of a path.
pub fn path_has_room(path: &Vec<PathSegment>) -> (r: bool)
    ensures
        r == has_room(path_view(path@)),
{
    let ghost view = path_view(path@);
    for index in 0..path.len()
        invariant
            view == path_view(path@),
            has_room(view.take(index as int)),
    {
        let ghost front = view.take(index as int);
        let ghost next = view.take(index + 1);
        assert(view[index as int] == path@[index as int]@);
        if let PathSegment::Index(position) = &path[index] {
            if !position_has_room(*position) {
                return false;
            }
        }
        assert forall|i: int| 0 <= i < next.len() implies ((#[trigger] next[i]) matches
            SegmentView::Index(index) ==> length_for(index) * vstd::layout::size_of::<
            vrl::value::Value,
        >() <= isize::MAX / 2) by {
            if i < front.len() {
                assert(next[i] == front[i]);
            }
        }
    }
    assert(view.take(path@.len() as int) =~= view);
    true
}

/// `vrl::path::OwnedValuePath::root` makes a path without segments.
#[verifier::external_body]
fn root_path() -> (r: vrl::path::OwnedValuePath)
    ensures
        path_segments(r) == Seq::<SegmentView>::empty(),
{
    vrl::path::OwnedValuePath::root()
}

/// `vrl::path::OwnedValuePath::push_field` appends a segment that leads to a member.
#[verifier::external_body]
fn push_field(path: &mut vrl::path::OwnedValuePath, name: &str)
    ensures
        path_segments(*final(path)) == path_segments(*old(path)).push(SegmentView::Field(name@)),
{
    path.push_field(name)
}

/// `vrl::path::OwnedValuePath::push_index` appends a segment that leads to an item.
#[verifier::external_body]
fn push_index(path: &mut vrl::path::OwnedValuePath, index: isize)
    ensures
        path_segments(*final(path)) == path_segments(*old(path)).push(
            SegmentView::Index(index as int),
        ),
{
    path.push_index(index)
}

/// `vrl::value::Value::from` makes a value of a text.
#[verifier::external_body]
pub(crate) fn text_value(text: String) -> (r: vrl::value::Value)
    ensures
        value_tree(r) == Tree::Text(text@),
{
    vrl::value::Value::from(text)
}

/// `vrl::value::Value::from` makes a value of a number.
#[verifier::external_body]
pub(crate) fn integer_value(number: i64) -> (r: vrl::value::Value)
    ensures
        value_tree(r) == Tree::Integer(number),
{
    vrl::value::Value::from(number)
}

/// `vrl::value::Value::from` makes an array of values.
#[verifier::external_body]
pub(crate) fn array_value(items: Vec<vrl::value::Value>) -> (r: vrl::value::Value)
    ensures
        value_tree(r) == Tree::Array(
            items@.map_values(|item: vrl::value::Value| value_tree(item)),
        ),
{
    vrl::value::Value::from(items)
}

/// `vrl::value::Value::from` makes an object without members of an empty map.
#[verifier::external_body]
pub(crate) fn object_value() -> (r: vrl::value::Value)
    ensures
        value_tree(r) == Tree::Object(Map::empty()),
{
    vrl::value::Value::from(vrl::value::ObjectMap::new())
}

/// `vrl::value::Value::contains` tells whether there is a value at a path, be it null.
#[verifier::external_body]
fn contains_at(value: &vrl::value::Value, path: &vrl::path::OwnedValuePath) -> (r: bool)
    ensures
        r == (tree_at(value_tree(*value), path_segments(*path)) is Some),
{
    value.contains(path)
}

/// `vrl::value::Value::insert` puts a value at a path, in place of any that is there. Objects and
/// arrays that the path leads through are made where there are none, in place of what is there. An
/// array that would be too large for memory is left out: making one panics.
#[verifier::external_body]
fn put_at(
    value: &mut vrl::value::Value,
    path: &vrl::path::OwnedValuePath,
    inserted: vrl::value::Value,
)
    requires
        has_room(path_segments(*path)),
    ensures
        value_tree(*final(value)) == tree_with(
            value_tree(*old(value)),
            path_segments(*path),
            value_tree(inserted),
        ),
{
    value.insert(path, inserted);
}

fn owned_path(path: &Vec<PathSegment>) -> (r: vrl::path::OwnedValuePath)
    ensures
        path_segments(r) == path_view(path@),
{
    let mut owned = root_path();
    for index in 0..path.len()
        invariant
            path_segments(owned) == path_view(path@).take(index as int),
    {
        let ghost before = path_segments(owned);
        match &path[index] {
            PathSegment::Field(name) => push_field(&mut owned, name.as_str()),
            PathSegment::Index(position) => push_index(&mut owned, *position),
        }
        assert(path_view(path@).take(index + 1) =~= before.push(path_view(path@)[index as int]));
    }
    assert(path_view(path@).take(path@.len() as int) =~= path_view(path@));
    owned
}

/// Puts a value at a path.
pub fn insert_at(value: &mut vrl::value::Value, path: &Vec<PathSegment>, inserted: vrl::value::Value)
    requires
        has_room(path_view(path@)),
    ensures
        value_tree(*final(value)) == tree_with(
            value_tree(*old(value)),
            path_view(path@),
            value_tree(inserted),
        ),
{
    put_at(value, &owned_path(path), inserted);
}

/// The tree with a value at a path where there is none.
pub open spec fn tree_with_if_empty(tree: Tree, path: Seq<SegmentView>, value: Tree) -> Tree {
    if tree_at(tree, path) is Some {
        tree
    } else {
        tree_with(tree, path, value)
    }
}

/// Puts a value at a path where there is none.
pub fn insert_if_empty(
    value: &mut vrl::value::Value,
    path: &Vec<PathSegment>,
    inserted: vrl::value::Value,
)
    requires
        tree_at(value_tree(*old(value)), path_view(path@)) is None ==> has_room(path_view(path@)),
    ensures
        value_tree(*final(value)) == tree_with_if_empty(
            value_tree(*old(value)),
            path_view(path@),
            value_tree(inserted),
        ),
{
    let owned = owned_path(path);
    if !contains_at(value, &owned) {
        put_at(value, &owned, inserted);
    }
}

/// What was put at a path is there.
pub proof fn insertion_reads_back(tree: Tree, path: Seq<SegmentView>, value: Tree)
    ensures
        tree_at(tree_with(tree, path, value), path) == Some(value),
    decreases path.len(),
{
    if path.len() > 0 {
        match path[0] {
            SegmentView::Field(name) => {
                let members = members_of(tree);
                let inner = if members.contains_key(name) {
                    members[name]
                } else {
                    Tree::Null
                };
                insertion_reads_back(inner, path.drop_first(), value);
            },
            SegmentView::Index(index) => {
                let items = padded(items_of(tree), index);
                insertion_reads_back(items[array_index(items, index)], path.drop_first(), value);
            },
        }
    }
}

/// Putting a value at a path that starts with a member leaves the other members of an object as
/// they are.
pub proof fn insertion_keeps_other_members(
    tree: Tree,
    path: Seq<SegmentView>,
    value: Tree,
    name: Seq<char>,
)
    requires
        path.len() > 0,
        path[0] is Field,
        path[0] != SegmentView::Field(name),
    ensures
        members_of(tree_with(tree, path, value)).contains_key(name) == members_of(
            tree,
        ).contains_key(name),
        members_of(tree_with(tree, path, value))[name] == members_of(tree)[name],
{
}

} // verus!
