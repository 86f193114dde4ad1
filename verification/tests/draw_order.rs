use motion_k::geo::map_generator::{Node, WayData};
use motion_k::geo::pos_builder::{area_points, ordered_area_points, RelationDrawOrder};

fn node(id: i64) -> Node {
    Node { id, tag: None, x: id * 1000, y: -id * 1000 }
}

fn way(id: i64, points: &[i64]) -> WayData {
    WayData { id, tag: None, way_points: points.iter().map(|p| node(*p)).collect() }
}

fn order(entries: &[(usize, bool)]) -> Vec<RelationDrawOrder> {
    entries.iter().map(|(index, is_reversed)| RelationDrawOrder { index: *index, is_reversed: *is_reversed }).collect()
}

#[test]
fn no_ways_no_order() {
    assert_eq!(RelationDrawOrder::from_ways(&Vec::new()), Ok(Vec::new()));
}

#[test]
fn first_way_without_nodes_gives_no_order() {
    let ways = vec![way(1, &[]), way(2, &[])];
    assert_eq!(RelationDrawOrder::from_ways(&ways), Ok(Vec::new()));
}

#[test]
fn single_way() {
    let ways = vec![way(1, &[1, 2, 3])];
    assert_eq!(RelationDrawOrder::from_ways(&ways), Ok(order(&[(0, false)])));
}

#[test]
fn chained_ways_keep_their_order() {
    let ways = vec![way(1, &[1, 2]), way(2, &[2, 3]), way(3, &[3, 4, 5]), way(4, &[5, 1])];
    assert_eq!(
        RelationDrawOrder::from_ways(&ways),
        Ok(order(&[(0, false), (1, false), (2, false), (3, false)]))
    );
}

#[test]
fn way_ending_at_the_chain_end_is_flipped() {
    let ways = vec![way(1, &[1, 2]), way(2, &[3, 2])];
    assert_eq!(RelationDrawOrder::from_ways(&ways), Ok(order(&[(0, false), (1, true)])));
}

#[test]
fn way_ending_at_the_chain_start_goes_in_front() {
    let ways = vec![way(1, &[1, 2]), way(2, &[3, 1])];
    assert_eq!(RelationDrawOrder::from_ways(&ways), Ok(order(&[(1, false), (0, false)])));
}

#[test]
fn way_starting_at_the_chain_start_goes_in_front_flipped() {
    let ways = vec![way(1, &[1, 2]), way(2, &[1, 3])];
    assert_eq!(RelationDrawOrder::from_ways(&ways), Ok(order(&[(1, true), (0, false)])));
}

#[test]
fn second_flip_in_a_row_is_not_flipped() {
    // The flip flag alternates between flipped ways.
    let ways = vec![way(1, &[1, 2]), way(2, &[3, 2]), way(3, &[4, 3])];
    assert_eq!(
        RelationDrawOrder::from_ways(&ways),
        Ok(order(&[(0, false), (1, true), (2, false)]))
    );
}

#[test]
fn later_pass_picks_up_a_way_seen_too_early() {
    // Way 1 joins the chain only after way 2 has extended it.
    let ways = vec![way(1, &[1, 2]), way(2, &[3, 4]), way(3, &[2, 3])];
    assert_eq!(
        RelationDrawOrder::from_ways(&ways),
        Ok(order(&[(0, false), (2, false), (1, false)]))
    );
}

#[test]
fn closed_rings_are_repeated_once_per_pass() {
    let ways = vec![way(1, &[1, 2, 1]), way(2, &[3, 4, 3]), way(3, &[5, 6, 5])];
    assert_eq!(
        RelationDrawOrder::from_ways(&ways),
        Ok(order(&[(0, false), (1, false), (2, false), (1, false), (2, false), (1, false), (2, false)]))
    );
}

#[test]
fn way_with_same_id_is_placed_once() {
    let ways = vec![way(1, &[1, 2]), way(2, &[2, 3]), way(2, &[3, 4])];
    assert_eq!(RelationDrawOrder::from_ways(&ways), Ok(order(&[(0, false), (1, false)])));
}

#[test]
fn disconnected_open_way_is_left_out() {
    let ways = vec![way(1, &[1, 2]), way(2, &[7, 8])];
    assert_eq!(RelationDrawOrder::from_ways(&ways), Ok(order(&[(0, false)])));
}

#[test]
fn nodes_differing_in_tag_do_not_join() {
    let mut tagged = node(2);
    tagged.tag = Some(motion_k::geo::map_generator::Tag::new(
        motion_k::geo::style::Category::Point,
        String::from("x"),
    ));
    let ways = vec![
        way(1, &[1, 2]),
        WayData { id: 2, tag: None, way_points: vec![tagged, node(3)] },
    ];
    assert_eq!(RelationDrawOrder::from_ways(&ways), Ok(order(&[(0, false)])));
}

#[test]
fn ordered_points_follow_the_draw_order() {
    let ways = vec![way(1, &[1, 2]), way(2, &[3, 2])];
    let points = ordered_area_points(&ways, &order(&[(0, false), (1, true)]));
    let ids: Vec<i64> = points.iter().map(|n| n.id).collect();
    assert_eq!(ids, vec![1, 2, 2, 3]);
    assert_eq!(points[3], node(3));
}

#[test]
fn ordered_points_of_computed_order() {
    let ways = vec![way(1, &[1, 2]), way(2, &[3, 1])];
    let orders = RelationDrawOrder::from_ways(&ways).unwrap();
    let ids: Vec<i64> = ordered_area_points(&ways, &orders).iter().map(|n| n.id).collect();
    assert_eq!(ids, vec![3, 1, 1, 2]);
}

#[test]
fn ordered_points_of_empty_order() {
    let ways = vec![way(1, &[1, 2])];
    assert!(ordered_area_points(&ways, &Vec::new()).is_empty());
}

#[test]
fn area_points_concatenate_the_ways() {
    let ways = vec![way(1, &[1, 2]), way(2, &[]), way(3, &[5, 4])];
    let ids: Vec<i64> = area_points(&ways).iter().map(|n| n.id).collect();
    assert_eq!(ids, vec![1, 2, 5, 4]);
}

#[test]
fn node_equality_compares_every_field() {
    assert!(node(1).equals(&node(1)));
    let mut moved = node(1);
    moved.y += 1;
    assert!(!node(1).equals(&moved));
}
