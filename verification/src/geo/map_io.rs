use vstd::prelude::*;
use std::collections::HashMap;
use vstd::std_specs::iter::IteratorSpec;
use crate::geo::map_generator::{
    MapData, Node, NodeView, RelationData, RelationView, Tag, TagView, WayData, WayView, nodes_view,
    tag_view, ways_view,
};
use crate::geo::pos_builder::{
    RelationDrawOrder, draw_order_of, lemma_draw_order_walkable, orderable, orderable_ways,
    orders_in_range,
};
use crate::geo::style::{
    Category, MapStyleSettings, category_of_key, default_area_styles, default_building_styles,
    default_way_styles, str_eq,
};

verus! {

broadcast use vstd::std_specs::hash::group_hash_axioms;

/// Reads map data from OSM files and binary caches; the reading itself is
/// done by the application, the bookkeeping by [`OsmImport`].
pub struct MapIO {}

/// The content of an import in progress: nodes and ways by id, and the
/// relations taken so far, in the order they came.
pub struct ImportView {
    pub settings: MapStyleSettings,
    pub nodes: Map<i64, NodeView>,
    pub ways: Map<i64, WayView>,
    pub relations: Seq<RelationView>,
}

/// Every node and way is stored under its own id, no two relations share
/// an id, and every relation's draw order names only its own outer ways.
pub open spec fn well_keyed(v: ImportView) -> bool {
    &&& forall|i: int|
        0 <= i < v.relations.len() ==> orders_in_range(
            #[trigger] v.relations[i].draw_orders,
            v.relations[i].outer.len() as int,
        )
    &&& forall|id: i64| #[trigger] v.nodes.contains_key(id) ==> v.nodes[id].id == id
    &&& forall|id: i64| #[trigger] v.ways.contains_key(id) ==> v.ways[id].id == id
    &&& forall|i: int, j: int|
        0 <= i < v.relations.len() && 0 <= j < v.relations.len() && i != j
            ==> #[trigger] v.relations[i].id != #[trigger] v.relations[j].id
}

/// Whether a relation with this id was taken already.
pub open spec fn has_relation(v: ImportView, id: i64) -> bool {
    exists|i: int| 0 <= i < v.relations.len() && #[trigger] v.relations[i].id == id
}

/// The tag of an element: the first of its tags (from position `i` on)
/// whose key the styles know (as an area key when `area_only`) and whose
/// value has an enabled style, classified by its key.
pub open spec fn chosen_tag(
    settings: MapStyleSettings,
    tags: Seq<(String, String)>,
    i: int,
    area_only: bool,
) -> Option<TagView>
    decreases tags.len() - i,
{
    if i < 0 || i >= tags.len() {
        None
    } else {
        let key = tags[i].0@;
        let value = tags[i].1@;
        let key_known = if area_only {
            category_of_key(key) == Some(Category::Area)
        } else {
            category_of_key(key) is Some
        };
        if key_known && settings.value_enabled(value) {
            Some(TagView { value, category: category_of_key(key)->0 })
        } else {
            chosen_tag(settings, tags, i + 1, area_only)
        }
    }
}

/// An element's tag always passes the filters it was chosen by: its value
/// has an enabled style, its category is the one its key stands for, and a
/// relation's tag is an area's.
pub proof fn lemma_chosen_tag_passes_filters(
    settings: MapStyleSettings,
    tags: Seq<(String, String)>,
    i: int,
    area_only: bool,
)
    ensures
        chosen_tag(settings, tags, i, area_only) matches Some(t) ==> {
            &&& settings.value_enabled(t.value)
            &&& exists|j: int|
                i <= j < tags.len() && #[trigger] tags[j].1@ == t.value && category_of_key(tags[j].0@)
                    == Some(t.category)
            &&& area_only ==> t.category == Category::Area
        },
    decreases tags.len() - i,
{
    if 0 <= i < tags.len() {
        lemma_chosen_tag_passes_filters(settings, tags, i + 1, area_only);
    }
}

/// Whether tag `j` passes the filters an element's tag is chosen by: its key
/// is known (as an area key when `area_only`) and its value has an enabled
/// style.
pub open spec fn tag_passes(settings: MapStyleSettings, tags: Seq<(String, String)>, j: int, area_only: bool) -> bool {
    &&& if area_only {
        category_of_key(tags[j].0@) == Some(Category::Area)
    } else {
        category_of_key(tags[j].0@) is Some
    }
    &&& settings.value_enabled(tags[j].1@)
}

/// The earliest passing tag is the one taken: when tag `j` passes and no
/// tag before it does, the element gets tag `j`'s value with the category of
/// tag `j`'s key.
pub proof fn lemma_earliest_passing_tag_is_taken(
    settings: MapStyleSettings,
    tags: Seq<(String, String)>,
    j: int,
    area_only: bool,
)
    requires
        0 <= j < tags.len(),
        tag_passes(settings, tags, j, area_only),
        forall|i: int| 0 <= i < j ==> !#[trigger] tag_passes(settings, tags, i, area_only),
    ensures
        chosen_tag(settings, tags, 0, area_only) == Some(
            TagView { value: tags[j].1@, category: category_of_key(tags[j].0@)->0 },
        ),
{
    lemma_chosen_tag_skips(settings, tags, 0, j, area_only);
}

/// An element none of whose tags passes the filters gets no tag.
pub proof fn lemma_no_passing_tag_no_tag(
    settings: MapStyleSettings,
    tags: Seq<(String, String)>,
    area_only: bool,
)
    requires
        forall|i: int| 0 <= i < tags.len() ==> !#[trigger] tag_passes(settings, tags, i, area_only),
    ensures
        chosen_tag(settings, tags, 0, area_only) is None,
{
    lemma_chosen_tag_skips(settings, tags, 0, tags.len() as int, area_only);
}

proof fn lemma_chosen_tag_skips(
    settings: MapStyleSettings,
    tags: Seq<(String, String)>,
    i: int,
    j: int,
    area_only: bool,
)
    requires
        0 <= i <= j <= tags.len(),
        forall|m: int| i <= m < j ==> !#[trigger] tag_passes(settings, tags, m, area_only),
    ensures
        chosen_tag(settings, tags, i, area_only) == chosen_tag(settings, tags, j, area_only),
    decreases j - i,
{
    if i < j {
        assert(!tag_passes(settings, tags, i, area_only));
        lemma_chosen_tag_skips(settings, tags, i + 1, j, area_only);
    }
}

/// The nodes a way refers to, in order, skipping the ones not imported.
pub open spec fn resolved_points(nodes: Map<i64, NodeView>, refs: Seq<i64>) -> Seq<NodeView>
    decreases refs.len(),
{
    if refs.len() == 0 {
        seq![]
    } else {
        let r = refs.last();
        resolved_points(nodes, refs.drop_last()) + if nodes.contains_key(r) {
            seq![nodes[r]]
        } else {
            seq![]
        }
    }
}

/// The imported member ways of a relation that have the given role, in
/// member order.
pub open spec fn role_ways(
    ways: Map<i64, WayView>,
    members: Seq<(i64, Option<String>)>,
    role: Seq<char>,
) -> Seq<WayView>
    decreases members.len(),
{
    if members.len() == 0 {
        seq![]
    } else {
        let m = members.last();
        role_ways(ways, members.drop_last(), role) + if ways.contains_key(m.0) && has_role(m, role) {
            seq![ways[m.0]]
        } else {
            seq![]
        }
    }
}

/// Whether a relation member was read with the given role.
pub open spec fn has_role(member: (i64, Option<String>), role: Seq<char>) -> bool {
    member.1 is Some && member.1->0@ == role
}

/// The relation an import takes for `id`.
pub open spec fn imported_relation(
    v: ImportView,
    id: i64,
    tags: Seq<(String, String)>,
    members: Seq<(i64, Option<String>)>,
) -> RelationView {
    let outer = role_ways(v.ways, members, "outer"@);
    RelationView {
        id,
        tag: chosen_tag(v.settings, tags, 0, true),
        draw_orders: draw_order_of(outer),
        outer,
        inner: role_ways(v.ways, members, "inner"@),
        empty: role_ways(v.ways, members, ""@),
    }
}

/// An OSM import in progress: the elements of the file are handed over one
/// by one, nodes first, then ways, then relations.
pub struct OsmImport {
    settings: MapStyleSettings,
    nodes: HashMap<i64, Node>,
    ways: HashMap<i64, WayData>,
    relations: Vec<RelationData>,
}

impl View for OsmImport {
    type V = ImportView;

    closed spec fn view(&self) -> ImportView {
        ImportView {
            settings: self.settings,
            nodes: self.nodes@.map_values(|n: Node| n@),
            ways: self.ways@.map_values(|w: WayData| w@),
            relations: self.relations@.map_values(|r: RelationData| r@),
        }
    }
}

impl OsmImport {
    /// An empty import that classifies tags with `settings`, or with the
    /// default styles when none are given.
    pub fn new(settings: Option<MapStyleSettings>) -> (r: OsmImport)
        ensures
            r@.nodes == Map::<i64, NodeView>::empty(),
            r@.ways == Map::<i64, WayView>::empty(),
            r@.relations == Seq::<RelationView>::empty(),
            well_keyed(r@),
            settings is Some ==> r@.settings == settings->0,
            settings is None ==> r@.settings.way@ == default_way_styles() && r@.settings.area@
                == default_area_styles() && r@.settings.building@ == default_building_styles(),
    {
        let settings = match settings {
            Some(s) => s,
            None => MapStyleSettings::default(),
        };
        let r = OsmImport { settings, nodes: HashMap::new(), ways: HashMap::new(), relations: Vec::new() };
        assert(r@.nodes =~= Map::<i64, NodeView>::empty());
        assert(r@.ways =~= Map::<i64, WayView>::empty());
        assert(r@.relations =~= Seq::<RelationView>::empty());
        r
    }

    /// Takes a node (plain or dense) with its position in nanodegrees; a
    /// node with the same id is replaced.
    pub fn add_node(&mut self, id: i64, x: i64, y: i64)
        requires
            well_keyed(old(self)@),
        ensures
            final(self)@.nodes == old(self)@.nodes.insert(id, NodeView { id, tag: None, x, y }),
            final(self)@.ways == old(self)@.ways,
            final(self)@.relations == old(self)@.relations,
            final(self)@.settings == old(self)@.settings,
            well_keyed(final(self)@),
    {
        let node = Node { id, x, y, tag: None };
        self.nodes.insert(id, node);
        assert(self@.nodes =~= old(self)@.nodes.insert(id, NodeView { id, tag: None, x, y }));
    }

    /// The classified tag of an element, from its `(key, value)` tags.
    fn choose_tag(&self, tags: &Vec<(String, String)>, area_only: bool) -> (r: Option<Tag>)
        ensures
            tag_view(r) == chosen_tag(self@.settings, tags@, 0, area_only),
    {
        let n = tags.len();
        let mut tag: Option<Tag> = None;
        let mut i: usize = 0;
        while i < n
            invariant
                n == tags@.len(),
                i <= n,
                tag is None,
                chosen_tag(self.settings, tags@, 0, area_only) == chosen_tag(
                    self.settings,
                    tags@,
                    i as int,
                    area_only,
                ),
            decreases n - i,
        {
            let key = tags[i].0.as_str();
            let value = tags[i].1.as_str();
            let key_known = if area_only {
                self.settings.filter_by_area_tag(key)
            } else {
                self.settings.filter_by_tag(key)
            };
            if key_known && self.settings.filter_by_value(value) {
                tag = self.settings.map_tag_to_category(key, value);
                return tag;
            }
            i = i + 1;
        }
        tag
    }

    /// Takes a way with its tags and the ids of its nodes: the way gets the
    /// first tag that passes the style filters, and the nodes among its
    /// references that were imported, in order. A way with the same id is
    /// replaced.
    pub fn add_way(&mut self, id: i64, tags: &Vec<(String, String)>, refs: &Vec<i64>)
        requires
            well_keyed(old(self)@),
        ensures
            final(self)@.ways == old(self)@.ways.insert(
                id,
                WayView {
                    id,
                    tag: chosen_tag(old(self)@.settings, tags@, 0, false),
                    points: resolved_points(old(self)@.nodes, refs@),
                },
            ),
            final(self)@.nodes == old(self)@.nodes,
            final(self)@.relations == old(self)@.relations,
            final(self)@.settings == old(self)@.settings,
            well_keyed(final(self)@),
    {
        let tag = self.choose_tag(tags, false);
        let mut way_nodes: Vec<Node> = Vec::new();
        let n = refs.len();
        for k in 0..n
            invariant
                n == refs@.len(),
                nodes_view(way_nodes@) == resolved_points(self@.nodes, refs@.subrange(0, k as int)),
        {
            let way_ref = refs[k];
            let ghost before = way_nodes@;
            match self.nodes.get(&way_ref) {
                Some(node) => {
                    way_nodes.push(node.duplicate());
                    assert(nodes_view(way_nodes@) =~= nodes_view(before).push(node@));
                },
                None => {},
            }
            assert(refs@.subrange(0, k + 1).drop_last() =~= refs@.subrange(0, k as int));
        }
        assert(refs@.subrange(0, n as int) =~= refs@);
        let way = WayData { id, tag, way_points: way_nodes };
        self.ways.insert(id, way);
        assert(self@.ways =~= old(self)@.ways.insert(
            id,
            WayData { id, tag, way_points: way_nodes }@,
        ));
    }
}

impl OsmImport {
    /// Whether a relation with this id was taken already.
    fn knows_relation(&self, id: i64) -> (r: bool)
        ensures
            r == has_relation(self@, id),
    {
        let n = self.relations.len();
        for i in 0..n
            invariant
                n == self.relations@.len(),
                forall|j: int| 0 <= j < i ==> self@.relations[j].id != id,
        {
            if self.relations[i].id == id {
                assert(self@.relations[i as int].id == id);
                return true;
            }
        }
        false
    }

    /// The imported member ways of a relation that have the given role.
    fn ways_with_role(&self, members: &Vec<(i64, Option<String>)>, role: &str) -> (r: Vec<WayData>)
        ensures
            ways_view(r@) == role_ways(self@.ways, members@, role@),
    {
        let mut r: Vec<WayData> = Vec::new();
        let n = members.len();
        for k in 0..n
            invariant
                n == members@.len(),
                ways_view(r@) == role_ways(self@.ways, members@.subrange(0, k as int), role@),
        {
            let ghost before = r@;
            let member_id = members[k].0;
            match self.ways.get(&member_id) {
                Some(way) => {
                    match &members[k].1 {
                        Some(member_role) => {
                            if str_eq(member_role.as_str(), role) {
                                r.push(way.duplicate());
                                assert(ways_view(r@) =~= ways_view(before).push(way@));
                            }
                        },
                        None => {},
                    }
                },
                None => {},
            }
            assert(members@.subrange(0, k + 1).drop_last() =~= members@.subrange(0, k as int));
        }
        assert(members@.subrange(0, n as int) =~= members@);
        r
    }

    /// Whether [`OsmImport::add_relation`] can take this relation: it was
    /// taken already (and is then left alone), or its outer ways can be put
    /// in draw order.
    pub fn can_add_relation(&self, id: i64, members: &Vec<(i64, Option<String>)>) -> (r: bool)
        ensures
            r == (has_relation(self@, id) || orderable(role_ways(self@.ways, members@, "outer"@))),
    {
        if self.knows_relation(id) {
            return true;
        }
        let outer = self.ways_with_role(members, "outer");
        orderable_ways(&outer)
    }

    /// Takes a relation with its tags and its `(member id, role)` list, the
    /// role `None` where it could not be read. A relation whose id was
    /// taken already is ignored. Otherwise the relation gets the first tag
    /// that passes the area filters, its imported member ways split into
    /// outer, inner and role-less ones, and the draw order of its outer ways.
    pub fn add_relation(
        &mut self,
        id: i64,
        tags: &Vec<(String, String)>,
        members: &Vec<(i64, Option<String>)>,
    )
        requires
            well_keyed(old(self)@),
            has_relation(old(self)@, id) || orderable(role_ways(old(self)@.ways, members@, "outer"@)),
        ensures
            has_relation(old(self)@, id) ==> final(self)@ == old(self)@,
            !has_relation(old(self)@, id) ==> final(self)@.relations == old(self)@.relations.push(
                imported_relation(old(self)@, id, tags@, members@),
            ),
            final(self)@.nodes == old(self)@.nodes,
            final(self)@.ways == old(self)@.ways,
            final(self)@.settings == old(self)@.settings,
            well_keyed(final(self)@),
    {
        if self.knows_relation(id) {
            return;
        }
        let tag = self.choose_tag(tags, true);
        let outer = self.ways_with_role(members, "outer");
        let inner = self.ways_with_role(members, "inner");
        let empty = self.ways_with_role(members, "");
        let draw_orders = RelationDrawOrder::from_ways(&outer).unwrap();
        let relation = RelationData { id, tag, draw_orders, outer, inner, empty };
        let ghost rv = relation@;
        self.relations.push(relation);
        assert(self@.relations =~= old(self)@.relations.push(rv));
        assert(rv == imported_relation(old(self)@, id, tags@, members@));
        proof {
            lemma_draw_order_walkable(rv.outer);
        }
        assert forall|i: int| 0 <= i < self@.relations.len() implies orders_in_range(
            #[trigger] self@.relations[i].draw_orders,
            self@.relations[i].outer.len() as int,
        ) by {
            if i < old(self)@.relations.len() {
                assert(self@.relations[i] == old(self)@.relations[i]);
            }
        }
        assert forall|i: int, j: int|
            0 <= i < self@.relations.len() && 0 <= j < self@.relations.len() && i != j
                implies #[trigger] self@.relations[i].id != #[trigger] self@.relations[j].id by {
            if i == self@.relations.len() - 1 {
                assert(old(self)@.relations[j].id != id);
            } else if j == self@.relations.len() - 1 {
                assert(old(self)@.relations[i].id != id);
            }
        }
    }
}

impl OsmImport {
    /// The imported map: the relations in the order they came, and every
    /// imported way once, in the order the way table is walked (which is not
    /// fixed).
    pub fn finish(self) -> (r: MapData)
        requires
            well_keyed(self@),
        ensures
            r.relations@.map_values(|rel: RelationData| rel@) == self@.relations,
            r.ways@.len() == self@.ways.dom().len(),
            forall|k: int|
                0 <= k < r.ways@.len() ==> self@.ways.contains_key(#[trigger] r.ways@[k].id)
                    && self@.ways[r.ways@[k].id] == r.ways@[k]@,
            forall|id: i64|
                #[trigger] self@.ways.contains_key(id) ==> exists|k: int|
                    0 <= k < r.ways@.len() && #[trigger] r.ways@[k].id == id,
    {
        let ghost v = self@;
        let ghost vals = vstd::std_specs::hash::spec_values_iter(&self.ways).remaining().unref();
        let mut ways: Vec<WayData> = Vec::new();
        for way in it: self.ways.values()
            invariant
                it.seq().unref() == vals,
                ways@.len() == it.index(),
                forall|k: int| 0 <= k < it.index() ==> #[trigger] ways@[k]@ == vals[k]@,
        {
            ways.push(way.duplicate());
        }
        proof {
            let m = self.ways@;
            assert(vals.to_set() == m.values());
            assert(vals.len() == m.dom().len());
            assert(ways@.len() == vals.len());
            assert(v.ways.dom() =~= m.dom());
            assert forall|k: int| 0 <= k < ways@.len() implies v.ways.contains_key(#[trigger] ways@[k].id)
                && v.ways[ways@[k].id] == ways@[k]@ by {
                assert(vals.to_set().contains(vals[k]));
                assert(m.values().contains(vals[k]));
                let id = choose|id: i64| #[trigger] m.contains_key(id) && m[id] == vals[k];
                assert(m.contains_key(id) && m[id] == vals[k]);
                assert(v.ways.contains_key(id));
                assert(v.ways[id] == m[id]@);
                assert(ways@[k]@ == vals[k]@);
                assert(v.ways[id].id == id);
                assert(ways@[k].id == id);
            }
            assert forall|id: i64| #[trigger] v.ways.contains_key(id) implies exists|k: int|
                0 <= k < ways@.len() && #[trigger] ways@[k].id == id by {
                assert(m.contains_key(id));
                assert(m.values().contains(m[id]));
                assert(vals.to_set().contains(m[id]));
                let k = choose|k: int| 0 <= k < vals.len() && vals[k] == m[id];
                assert(ways@[k]@ == vals[k]@);
                assert(v.ways[id] == m[id]@);
            }
        }
        let r = MapData { relations: self.relations, ways };
        assert(r.relations@.map_values(|rel: RelationData| rel@) =~= v.relations);
        r
    }
}

/// A way's nodes are exactly the imported nodes it refers to: every node in
/// it is the node of one of its imported references, every imported
/// reference gives a node, there are no more nodes than references, and when
/// every reference was imported the nodes follow the references one to one.
pub proof fn lemma_resolved_points_follow_refs(nodes: Map<i64, NodeView>, refs: Seq<i64>)
    ensures
        resolved_points(nodes, refs).len() <= refs.len(),
        forall|j: int|
            #![trigger resolved_points(nodes, refs)[j]]
            0 <= j < resolved_points(nodes, refs).len() ==> exists|r: int|
                0 <= r < refs.len() && nodes.contains_key(#[trigger] refs[r])
                    && resolved_points(nodes, refs)[j] == nodes[refs[r]],
        forall|r: int|
            0 <= r < refs.len() && nodes.contains_key(#[trigger] refs[r]) ==> resolved_points(
                nodes,
                refs,
            ).contains(nodes[refs[r]]),
        (forall|r: int| 0 <= r < refs.len() ==> nodes.contains_key(#[trigger] refs[r]))
            ==> resolved_points(nodes, refs) == refs.map_values(|r: i64| nodes[r]),
    decreases refs.len(),
{
    if refs.len() > 0 {
        let init = refs.drop_last();
        lemma_resolved_points_follow_refs(nodes, init);
        let prev = resolved_points(nodes, init);
        let cur = resolved_points(nodes, refs);
        let last = refs.last();
        if forall|r: int| 0 <= r < refs.len() ==> nodes.contains_key(#[trigger] refs[r]) {
            assert forall|r: int| 0 <= r < init.len() implies nodes.contains_key(#[trigger] init[r]) by {
                assert(init[r] == refs[r]);
            }
            assert(nodes.contains_key(refs[refs.len() - 1]));
            assert(cur =~= refs.map_values(|r: i64| nodes[r]));
        }
        assert forall|j: int| #![trigger cur[j]] 0 <= j < cur.len() implies exists|r: int|
            0 <= r < refs.len() && nodes.contains_key(#[trigger] refs[r]) && cur[j] == nodes[refs[r]] by {
            if j < prev.len() {
                assert(cur[j] == prev[j]);
                let r = choose|r: int| 0 <= r < init.len() && nodes.contains_key(#[trigger] init[r]) && prev[j] == nodes[init[r]];
                assert(refs[r] == init[r]);
            } else {
                assert(refs[refs.len() - 1] == last);
            }
        }
        assert forall|r: int| 0 <= r < refs.len() && nodes.contains_key(#[trigger] refs[r]) implies cur.contains(nodes[refs[r]]) by {
            if r < refs.len() - 1 {
                assert(init[r] == refs[r]);
                assert(prev.contains(nodes[init[r]]));
                let j = choose|j: int| 0 <= j < prev.len() && prev[j] == nodes[init[r]];
                assert(cur[j] == prev[j]);
            } else {
                assert(cur[cur.len() - 1] == nodes[last]);
            }
        }
    }
}

/// A relation's ways of one role are exactly its imported members with that
/// role: every way listed is the way of such a member, every such member's
/// way is listed, and when every member was imported with that role the ways
/// follow the members one to one.
pub proof fn lemma_role_ways_follow_members(
    ways: Map<i64, WayView>,
    members: Seq<(i64, Option<String>)>,
    role: Seq<char>,
)
    ensures
        role_ways(ways, members, role).len() <= members.len(),
        forall|j: int|
            #![trigger role_ways(ways, members, role)[j]]
            0 <= j < role_ways(ways, members, role).len() ==> exists|m: int|
                0 <= m < members.len() && ways.contains_key(#[trigger] members[m].0)
                    && has_role(members[m], role)
                    && role_ways(ways, members, role)[j] == ways[members[m].0],
        forall|m: int|
            0 <= m < members.len() && ways.contains_key(#[trigger] members[m].0) && has_role(members[m], role) ==> role_ways(ways, members, role).contains(
                ways[members[m].0],
            ),
        (forall|m: int|
            0 <= m < members.len() ==> ways.contains_key(#[trigger] members[m].0) && has_role(members[m], role)) ==> role_ways(ways, members, role) == members.map_values(
            |m: (i64, Option<String>)| ways[m.0],
        ),
    decreases members.len(),
{
    if members.len() > 0 {
        let init = members.drop_last();
        lemma_role_ways_follow_members(ways, init, role);
        let prev = role_ways(ways, init, role);
        let cur = role_ways(ways, members, role);
        let last = members.last();
        if forall|m: int|
            0 <= m < members.len() ==> ways.contains_key(#[trigger] members[m].0) && has_role(members[m], role) {
            assert forall|m: int| 0 <= m < init.len() implies ways.contains_key(#[trigger] init[m].0) && has_role(init[m], role) by {
                assert(init[m] == members[m]);
            }
            assert(ways.contains_key(members[members.len() - 1].0));
            assert(cur =~= members.map_values(|m: (i64, Option<String>)| ways[m.0]));
        }
        assert forall|j: int| #![trigger cur[j]] 0 <= j < cur.len() implies exists|m: int|
            0 <= m < members.len() && ways.contains_key(#[trigger] members[m].0) && has_role(members[m], role) && cur[j] == ways[members[m].0] by {
            if j < prev.len() {
                assert(cur[j] == prev[j]);
                let m = choose|m: int| 0 <= m < init.len() && ways.contains_key(#[trigger] init[m].0) && has_role(init[m], role) && prev[j] == ways[init[m].0];
                assert(members[m] == init[m]);
            } else {
                assert(members[members.len() - 1] == last);
            }
        }
        assert forall|m: int|
            0 <= m < members.len() && ways.contains_key(#[trigger] members[m].0) && has_role(members[m], role) implies cur.contains(ways[members[m].0]) by {
            if m < members.len() - 1 {
                assert(init[m] == members[m]);
                assert(prev.contains(ways[init[m].0]));
                let j = choose|j: int| 0 <= j < prev.len() && prev[j] == ways[init[m].0];
                assert(cur[j] == prev[j]);
            } else {
                assert(cur[cur.len() - 1] == ways[last.0]);
            }
        }
    }
}

} // verus!
