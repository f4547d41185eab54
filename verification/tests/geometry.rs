use open_rust_map::osm_data::{
    Coordinate, MemberDetail, MemberId, OsmData, RawNode, RawRelation, RawWay, RelationMember,
};

fn node(id: i64, lat: i32, lon: i32) -> RawNode {
    RawNode { id, decimicro_lat: lat, decimicro_lon: lon, tags: Vec::new() }
}

fn tagged_node(id: i64, lat: i32, lon: i32, tags: Vec<(String, String)>) -> RawNode {
    RawNode { id, decimicro_lat: lat, decimicro_lon: lon, tags }
}

fn way(id: i64, nodes: Vec<i64>) -> RawWay {
    RawWay { id, nodes, tags: Vec::new() }
}

fn member(role: &str, member: MemberId) -> RelationMember {
    RelationMember { role: String::from(role), member }
}

fn relation(id: i64, refs: Vec<RelationMember>) -> RawRelation {
    RawRelation { id, refs, tags: Vec::new() }
}

fn coord(lat: i32, lon: i32) -> Coordinate {
    Coordinate { decimicro_lat: lat, decimicro_lon: lon }
}

#[test]
fn coordinate_decodes_to_degrees_within_tolerance() {
    // decimicro-degree fields encoding 13.7563 N, 100.5018 E
    let mut data = OsmData::default();
    data.add_node(node(1, 137_563_000, 1_005_018_000));
    let c = data.get_coordinate_by_node_id(1).unwrap();
    let lat = c.decimicro_lat as f64 / 10_000_000.0;
    let lon = c.decimicro_lon as f64 / 10_000_000.0;
    assert!((lat - 13.7563).abs() < 1e-6);
    assert!((lon - 100.5018).abs() < 1e-6);
}

#[test]
fn coordinate_by_node_never_fails() {
    let data = OsmData::default();
    let n = node(1, 5, 6);
    assert_eq!(data.get_coordinate_by_node(&n), Ok(coord(5, 6)));
}

#[test]
fn way_coordinates_skip_missing_nodes() {
    let mut data = OsmData::default();
    data.add_node(node(1, 10, 11));
    data.add_node(node(3, 30, 31));
    let w = way(9, vec![1, 2, 3]);
    data.add_way(w);
    let coords = data.get_coordinates_by_way_id(9).unwrap();
    assert_eq!(coords, vec![coord(10, 11), coord(30, 31)]);
    assert!(data.get_coordinates_by_way_id(8).is_none());
}

#[test]
fn outer_ring_takes_outer_way_and_detail_takes_inner() {
    // one "outer" way member and one "inner"-role way member
    let mut data = OsmData::default();
    data.add_node(node(1, 10, 10));
    data.add_node(node(2, 20, 20));
    data.add_node(node(3, 30, 30));
    data.add_node(node(4, 40, 40));
    data.add_way(way(100, vec![1, 2]));
    let mut inner_way = way(200, vec![3, 4]);
    inner_way.tags.push((String::from("landuse"), String::from("pond")));
    data.add_way(inner_way);
    data.add_relation(relation(
        500,
        vec![
            member("outer", MemberId::Way(100)),
            member("inner", MemberId::Way(200)),
        ],
    ));

    let outer = data.get_outer_coordinates_by_relation_id(500).unwrap();
    assert_eq!(outer, vec![coord(10, 10), coord(20, 20)]);
    let stored = relation(
        500,
        vec![
            member("outer", MemberId::Way(100)),
            member("inner", MemberId::Way(200)),
        ],
    );
    assert_eq!(data.get_outer_coordinates_by_relation(&stored).unwrap(), outer);

    let details = data.get_not_outer_coordinates_by_relation_id(500).unwrap();
    assert_eq!(details.len(), 1);
    match &details[0] {
        MemberDetail::Way { id, tags, coordinates } => {
            assert_eq!(*id, 200);
            assert_eq!(tags, &vec![(String::from("landuse"), String::from("pond"))]);
            assert_eq!(coordinates, &vec![coord(30, 30), coord(40, 40)]);
        }
        other => panic!("expected a way detail, got {:?}", other),
    }
}

#[test]
fn outer_role_comparison_is_case_insensitive() {
    let mut data = OsmData::default();
    data.add_node(node(1, 10, 10));
    data.add_relation(relation(500, vec![member("OUTER", MemberId::Node(1))]));
    let outer = data.get_outer_coordinates_by_relation_id(500).unwrap();
    assert_eq!(outer, vec![coord(10, 10)]);
    // and a case-folded non-"outer" role stays out
    let mut data2 = OsmData::default();
    data2.add_node(node(1, 10, 10));
    data2.add_relation(relation(500, vec![member("Inner", MemberId::Node(1))]));
    assert_eq!(data2.get_outer_coordinates_by_relation_id(500).unwrap(), Vec::new());
}

#[test]
fn self_referencing_relation_resolves_to_nothing() {
    // a relation whose single member is itself: the guard skips it
    let mut data = OsmData::default();
    data.add_relation(relation(7, vec![member("outer", MemberId::Relation(7))]));
    assert_eq!(data.get_outer_coordinates_by_relation_id(7).unwrap(), Vec::new());
    assert_eq!(data.get_coordinates_by_relation_id(7).unwrap(), Vec::new());
    // the by-value variant reports the empty resolution as absence
    let stored = relation(7, vec![member("outer", MemberId::Relation(7))]);
    assert!(data.get_outer_coordinates_by_relation(&stored).is_none());
}

#[test]
fn nested_relation_contributes_its_outer_ring() {
    let mut data = OsmData::default();
    data.add_node(node(1, 10, 10));
    data.add_node(node(2, 20, 20));
    data.add_way(way(100, vec![1, 2]));
    data.add_relation(relation(600, vec![member("outer", MemberId::Way(100))]));
    data.add_relation(relation(500, vec![member("outer", MemberId::Relation(600))]));
    let outer = data.get_outer_coordinates_by_relation_id(500).unwrap();
    assert_eq!(outer, vec![coord(10, 10), coord(20, 20)]);
}

#[test]
fn relation_coordinates_ignore_roles() {
    let mut data = OsmData::default();
    data.add_node(node(1, 10, 10));
    data.add_node(node(2, 20, 20));
    data.add_relation(relation(
        500,
        vec![
            member("outer", MemberId::Node(1)),
            member("inner", MemberId::Node(2)),
        ],
    ));
    let all = data.get_coordinates_by_relation_id(500).unwrap();
    assert_eq!(all, vec![coord(10, 10), coord(20, 20)]);
    let stored = relation(
        500,
        vec![
            member("outer", MemberId::Node(1)),
            member("inner", MemberId::Node(2)),
        ],
    );
    assert_eq!(data.get_coordinates_by_relation(&stored).unwrap(), all);
    assert!(data.get_coordinates_by_relation_id(1).is_none());
}

#[test]
fn node_detail_carries_coordinate_and_tags() {
    let mut data = OsmData::default();
    data.add_node(tagged_node(
        1,
        15,
        25,
        vec![(String::from("amenity"), String::from("fountain"))],
    ));
    data.add_relation(relation(500, vec![member("feature", MemberId::Node(1))]));
    let details = data.get_not_outer_coordinates_by_relation_id(500).unwrap();
    assert_eq!(details.len(), 1);
    match &details[0] {
        MemberDetail::Node { id, tags, coordinate } => {
            assert_eq!(*id, 1);
            assert_eq!(tags, &vec![(String::from("amenity"), String::from("fountain"))]);
            assert_eq!(*coordinate, coord(15, 25));
        }
        other => panic!("expected a node detail, got {:?}", other),
    }
}

#[test]
fn relation_detail_carries_role_and_nested_outer_ring() {
    let mut data = OsmData::default();
    data.add_node(node(1, 10, 10));
    data.add_way(way(100, vec![1]));
    data.add_relation(relation(600, vec![member("outer", MemberId::Way(100))]));
    data.add_relation(relation(500, vec![member("subarea", MemberId::Relation(600))]));
    let details = data.get_not_outer_coordinates_by_relation_id(500).unwrap();
    assert_eq!(details.len(), 1);
    match &details[0] {
        MemberDetail::Relation { id, role, coordinates, .. } => {
            assert_eq!(*id, 600);
            assert_eq!(role, "subarea");
            assert_eq!(coordinates, &vec![coord(10, 10)]);
        }
        other => panic!("expected a relation detail, got {:?}", other),
    }
    // members that resolve to no stored record are skipped, not fatal
    let mut sparse = OsmData::default();
    sparse.add_relation(relation(
        500,
        vec![
            member("inner", MemberId::Node(1)),
            member("inner", MemberId::Way(2)),
            member("inner", MemberId::Relation(3)),
        ],
    ));
    assert_eq!(sparse.get_not_outer_coordinates_by_relation_id(500).unwrap().len(), 0);
    assert!(sparse.get_not_outer_coordinates_by_relation_id(123).is_none());
}
