use vstd::prelude::*;
use crate::geo::style::{Category, StyleTable};
use crate::geo::pos_builder::RelationDrawOrder;

verus! {

/// A classified OSM tag: the tag's value (e.g. `"forest"`) and the category
/// its key maps to (e.g. `landuse` maps to `Category::Area`).
#[derive(Clone, Debug, PartialEq)]
pub struct Tag {
    pub value: String,
    pub category: Category,
}

/// The mathematical content of a [`Tag`].
pub struct TagView {
    pub value: Seq<char>,
    pub category: Category,
}

impl View for Tag {
    type V = TagView;

    open spec fn view(&self) -> TagView {
        TagView { value: self.value@, category: self.category }
    }
}

impl Tag {
    pub fn new(category: Category, value: String) -> (t: Tag)
        ensures
            t.category == category,
            t.value == value,
    {
        Tag { category, value }
    }

    /// Field-wise equality of two tags.
    pub fn equals(&self, other: &Tag) -> (r: bool)
        ensures
            r == (self@ == other@),
    {
        let same_value = self.value == other.value;
        same_value && self.category == other.category
    }

    /// A copy of the tag with the same fields.
    pub fn duplicate(&self) -> (t: Tag)
        ensures
            t == *self,
    {
        Tag { value: self.value.clone(), category: self.category }
    }
}

} // verus!

verus! {

/// The view of an optional tag.
pub open spec fn tag_view(tag: Option<Tag>) -> Option<TagView> {
    match tag {
        Some(t) => Some(t@),
        None => None,
    }
}

/// Field-wise equality of two optional tags.
pub fn optional_tags_equal(a: &Option<Tag>, b: &Option<Tag>) -> (r: bool)
    ensures
        r == (tag_view(*a) == tag_view(*b)),
{
    match (a, b) {
        (Some(x), Some(y)) => x.equals(y),
        (None, None) => true,
        _ => false,
    }
}

/// A copy of an optional tag.
pub fn duplicate_tag(tag: &Option<Tag>) -> (r: Option<Tag>)
    ensures
        r == *tag,
{
    match tag {
        Some(t) => Some(t.duplicate()),
        None => None,
    }
}

/// An OSM node. Its position is kept the way the PBF format stores it:
/// `x` is the latitude and `y` the longitude, both in nanodegrees.
#[derive(Clone, Debug, PartialEq)]
pub struct Node {
    pub id: i64,
    pub tag: Option<Tag>,
    pub x: i64,
    pub y: i64,
}

pub struct NodeView {
    pub id: i64,
    pub tag: Option<TagView>,
    pub x: i64,
    pub y: i64,
}

impl View for Node {
    type V = NodeView;

    open spec fn view(&self) -> NodeView {
        NodeView { id: self.id, tag: tag_view(self.tag), x: self.x, y: self.y }
    }
}

impl Node {
    /// Field-wise equality of two nodes (id, tag and position).
    pub fn equals(&self, other: &Node) -> (r: bool)
        ensures
            r == (self@ == other@),
    {
        self.id == other.id && self.x == other.x && self.y == other.y
            && optional_tags_equal(&self.tag, &other.tag)
    }

    /// A copy of the node.
    pub fn duplicate(&self) -> (n: Node)
        ensures
            n == *self,
    {
        Node { id: self.id, tag: duplicate_tag(&self.tag), x: self.x, y: self.y }
    }
}

/// The views of a sequence of nodes.
pub open spec fn nodes_view(nodes: Seq<Node>) -> Seq<NodeView> {
    nodes.map_values(|n: Node| n@)
}

/// A copy of a list of nodes, element by element.
pub fn duplicate_nodes(nodes: &Vec<Node>) -> (r: Vec<Node>)
    ensures
        r@ == nodes@,
{
    let mut r: Vec<Node> = Vec::new();
    let n = nodes.len();
    for i in 0..n
        invariant
            n == nodes@.len(),
            r@ == nodes@.subrange(0, i as int),
    {
        r.push(nodes[i].duplicate());
        assert(r@ =~= nodes@.subrange(0, i + 1));
    }
    assert(r@ =~= nodes@);
    r
}

/// An OSM way: an optional classified tag and the nodes it runs through.
#[derive(Clone, Debug, PartialEq)]
pub struct WayData {
    pub id: i64,
    pub tag: Option<Tag>,
    pub way_points: Vec<Node>,
}

pub struct WayView {
    pub id: i64,
    pub tag: Option<TagView>,
    pub points: Seq<NodeView>,
}

impl View for WayData {
    type V = WayView;

    open spec fn view(&self) -> WayView {
        WayView { id: self.id, tag: tag_view(self.tag), points: nodes_view(self.way_points@) }
    }
}

/// The views of a sequence of ways.
pub open spec fn ways_view(ways: Seq<WayData>) -> Seq<WayView> {
    ways.map_values(|w: WayData| w@)
}

impl WayData {
    /// A copy of the way.
    pub fn duplicate(&self) -> (w: WayData)
        ensures
            w@ == self@,
            w.id == self.id,
            w.tag == self.tag,
            w.way_points@ == self.way_points@,
    {
        WayData { id: self.id, tag: duplicate_tag(&self.tag), way_points: duplicate_nodes(&self.way_points) }
    }
}

/// An OSM multipolygon relation, its member ways split by role, and the
/// order in which its outer ways are drawn.
#[derive(Clone, Debug)]
pub struct RelationData {
    pub id: i64,
    pub tag: Option<Tag>,
    pub draw_orders: Vec<RelationDrawOrder>,
    pub outer: Vec<WayData>,
    pub inner: Vec<WayData>,
    pub empty: Vec<WayData>,
}

pub struct RelationView {
    pub id: i64,
    pub tag: Option<TagView>,
    pub draw_orders: Seq<RelationDrawOrder>,
    pub outer: Seq<WayView>,
    pub inner: Seq<WayView>,
    pub empty: Seq<WayView>,
}

impl View for RelationData {
    type V = RelationView;

    open spec fn view(&self) -> RelationView {
        RelationView {
            id: self.id,
            tag: tag_view(self.tag),
            draw_orders: self.draw_orders@,
            outer: ways_view(self.outer@),
            inner: ways_view(self.inner@),
            empty: ways_view(self.empty@),
        }
    }
}

/// Everything a map draws: its relations and its ways.
#[derive(Clone, Debug)]
pub struct MapData {
    pub relations: Vec<RelationData>,
    pub ways: Vec<WayData>,
}

/// The style a map element is drawn with in one drawing pass: the element
/// must carry a tag of the pass's category whose value the pass's style
/// table knows.
pub fn style_for<'a, S>(style_map: &'a StyleTable<S>, category: Category, tag: &Option<Tag>) -> (r: Option<&'a S>)
    ensures
        match tag {
            None => r is None,
            Some(t) => if t.category == category && style_map@.contains_key(t.value@) {
                r is Some && *r->0 == style_map@[t.value@]
            } else {
                r is None
            },
        },
{
    match tag {
        None => None,
        Some(t) => {
            if t.category != category || !style_map.contains_key(t.value.as_str()) {
                return None;
            }
            style_map.get(t.value.as_str())
        },
    }
}

} // verus!
