use motion_k::geo::map_generator::{Node, Tag};
use motion_k::geo::map_io::OsmImport;
use motion_k::geo::pos_builder::RelationDrawOrder;
use motion_k::geo::style::{Category, MapStyleSettings};

fn tags(pairs: &[(&str, &str)]) -> Vec<(String, String)> {
    pairs.iter().map(|(k, v)| (k.to_string(), v.to_string())).collect()
}

fn members(list: &[(i64, Option<&str>)]) -> Vec<(i64, Option<String>)> {
    list.iter().map(|(id, role)| (*id, role.map(|r| r.to_string()))).collect()
}

fn with_nodes() -> OsmImport {
    let mut import = OsmImport::new(None);
    for id in 1..=6 {
        import.add_node(id, id * 100, id * 200);
    }
    import
}

#[test]
fn way_gets_resolved_nodes_and_first_passing_tag() {
    let mut import = with_nodes();
    import.add_way(10, &tags(&[("name", "Main"), ("highway", "footway"), ("landuse", "forest")]), &vec![1, 99, 2]);
    let map = import.finish();
    assert_eq!(map.ways.len(), 1);
    let way = &map.ways[0];
    assert_eq!(way.id, 10);
    assert_eq!(way.tag, Some(Tag::new(Category::Area, String::from("forest"))));
    assert_eq!(way.way_points, vec![
        Node { id: 1, tag: None, x: 100, y: 200 },
        Node { id: 2, tag: None, x: 200, y: 400 },
    ]);
}

#[test]
fn way_without_passing_tag() {
    let mut import = with_nodes();
    import.add_way(10, &tags(&[("name", "forest"), ("highway", "unknown")]), &vec![]);
    let map = import.finish();
    assert_eq!(map.ways[0].tag, None);
    assert!(map.ways[0].way_points.is_empty());
}

#[test]
fn later_node_and_way_replace_earlier_ones() {
    let mut import = OsmImport::new(None);
    import.add_node(1, 5, 5);
    import.add_node(1, 7, 8);
    import.add_way(10, &tags(&[]), &vec![1]);
    import.add_way(10, &tags(&[("highway", "motorway")]), &vec![1, 1]);
    let map = import.finish();
    assert_eq!(map.ways.len(), 1);
    assert_eq!(map.ways[0].tag, Some(Tag::new(Category::Path, String::from("motorway"))));
    assert_eq!(map.ways[0].way_points.len(), 2);
    assert_eq!(map.ways[0].way_points[0].x, 7);
    assert_eq!(map.ways[0].way_points[0].y, 8);
}

#[test]
fn every_way_comes_out_once() {
    let mut import = with_nodes();
    for id in 10..20 {
        import.add_way(id, &tags(&[]), &vec![1]);
    }
    let map = import.finish();
    let mut ids: Vec<i64> = map.ways.iter().map(|w| w.id).collect();
    ids.sort();
    assert_eq!(ids, (10..20).collect::<Vec<i64>>());
}

#[test]
fn relation_splits_members_by_role() {
    let mut import = with_nodes();
    import.add_way(10, &tags(&[]), &vec![1, 2]);
    import.add_way(11, &tags(&[]), &vec![3, 2]);
    import.add_way(12, &tags(&[]), &vec![4, 5]);
    import.add_way(13, &tags(&[]), &vec![5, 6]);
    let list = members(&[
        (10, Some("outer")),
        (12, Some("inner")),
        (11, Some("outer")),
        (13, Some("")),
        (12, None),
        (99, Some("outer")),
        (13, Some("label")),
    ]);
    assert!(import.can_add_relation(7, &list));
    import.add_relation(7, &tags(&[("highway", "primary"), ("landuse", "forest")]), &list);
    let map = import.finish();
    assert_eq!(map.relations.len(), 1);
    let rel = &map.relations[0];
    assert_eq!(rel.id, 7);
    assert_eq!(rel.tag, Some(Tag::new(Category::Area, String::from("forest"))));
    assert_eq!(rel.outer.iter().map(|w| w.id).collect::<Vec<_>>(), vec![10, 11]);
    assert_eq!(rel.inner.iter().map(|w| w.id).collect::<Vec<_>>(), vec![12]);
    assert_eq!(rel.empty.iter().map(|w| w.id).collect::<Vec<_>>(), vec![13]);
    assert_eq!(rel.draw_orders, vec![
        RelationDrawOrder { index: 0, is_reversed: false },
        RelationDrawOrder { index: 1, is_reversed: true },
    ]);
}

#[test]
fn relation_is_taken_once() {
    let mut import = with_nodes();
    import.add_way(10, &tags(&[]), &vec![1, 2]);
    import.add_relation(7, &tags(&[("landuse", "forest")]), &members(&[(10, Some("outer"))]));
    import.add_relation(7, &tags(&[("natural", "water")]), &members(&[]));
    import.add_relation(8, &tags(&[]), &members(&[]));
    let map = import.finish();
    assert_eq!(map.relations.len(), 2);
    assert_eq!(map.relations[0].id, 7);
    assert_eq!(map.relations[0].tag, Some(Tag::new(Category::Area, String::from("forest"))));
    assert_eq!(map.relations[0].outer.len(), 1);
    assert_eq!(map.relations[1].id, 8);
    assert_eq!(map.relations[1].tag, None);
    assert!(map.relations[1].draw_orders.is_empty());
}

#[test]
fn relation_with_unorderable_outer_ways_is_refused() {
    let mut import = with_nodes();
    import.add_way(10, &tags(&[]), &vec![1, 2]);
    import.add_way(11, &tags(&[]), &vec![98, 99]);
    let list = members(&[(10, Some("outer")), (11, Some("outer"))]);
    assert!(!import.can_add_relation(7, &list));
    let first_empty = members(&[(11, Some("outer")), (10, Some("outer"))]);
    assert!(import.can_add_relation(7, &first_empty));
}

#[test]
fn relation_tag_needs_an_area_key() {
    let mut import = with_nodes();
    import.add_relation(7, &tags(&[("building", "yes"), ("highway", "motorway")]), &members(&[]));
    let map = import.finish();
    assert_eq!(map.relations[0].tag, None);
}

#[test]
fn custom_settings_are_used() {
    let mut settings = MapStyleSettings::default();
    let mut off = settings.area.get("forest").unwrap().clone();
    off.is_enabled = false;
    settings.area.insert(String::from("forest"), off);
    let mut import = OsmImport::new(Some(settings));
    import.add_way(10, &tags(&[("landuse", "forest"), ("natural", "water")]), &vec![]);
    let map = import.finish();
    assert_eq!(map.ways[0].tag, Some(Tag::new(Category::Area, String::from("water"))));
}
