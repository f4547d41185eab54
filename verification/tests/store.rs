use open_rust_map::osm_data::{
    MemberId, OsmData, OsmRecord, RawNode, RawRelation, RawWay, RelationMember,
};
use open_rust_map::utils::time_parts;

fn node(id: i64, lat: i32, lon: i32) -> RawNode {
    RawNode { id, decimicro_lat: lat, decimicro_lon: lon, tags: Vec::new() }
}

fn way(id: i64, nodes: Vec<i64>) -> RawWay {
    RawWay { id, nodes, tags: Vec::new() }
}

fn relation(id: i64, refs: Vec<RelationMember>) -> RawRelation {
    RawRelation { id, refs, tags: Vec::new() }
}

#[test]
fn store_lookup_roundtrip() {
    let mut data = OsmData::default();
    data.add_node(node(1, 10, 20));
    data.add_way(way(2, vec![1]));
    data.add_relation(relation(3, Vec::new()));

    assert_eq!(data.get_node_by_id(1).unwrap().decimicro_lat, 10);
    assert_eq!(data.get_way_by_id(2).unwrap().nodes, vec![1]);
    assert!(data.get_relation_by_id(3).is_some());
    assert!(data.get_node_by_id(99).is_none());
    assert!(data.get_way_by_id(1).is_none());
    assert!(data.get_relation_by_id(2).is_none());
}

#[test]
fn store_keyspaces_are_independent() {
    let mut data = OsmData::default();
    data.add_node(node(7, 1, 2));
    data.add_way(way(7, vec![7]));
    data.add_relation(relation(7, Vec::new()));
    assert!(data.get_node_by_id(7).is_some());
    assert!(data.get_way_by_id(7).is_some());
    assert!(data.get_relation_by_id(7).is_some());
}

#[test]
fn store_insert_overwrites_by_identifier() {
    let mut data = OsmData::default();
    data.add_node(node(5, 1, 1));
    data.add_node(node(5, 9, 9));
    assert_eq!(data.get_node_by_id(5).unwrap().decimicro_lat, 9);
}

#[test]
fn feed_classifies_records_by_kind() {
    let records = vec![
        OsmRecord::Node(node(1, 100, 200)),
        OsmRecord::Way(way(1, vec![1])),
        OsmRecord::Relation(relation(
            1,
            vec![RelationMember { role: String::from("outer"), member: MemberId::Node(1) }],
        )),
        OsmRecord::Node(node(2, 300, 400)),
    ];
    let data = OsmData::build_from_feed(records);
    assert!(data.get_node_by_id(1).is_some());
    assert!(data.get_node_by_id(2).is_some());
    assert!(data.get_way_by_id(1).is_some());
    assert!(data.get_relation_by_id(1).is_some());
    assert!(data.get_relation_by_id(2).is_none());
}

#[test]
fn feed_later_record_wins() {
    let records = vec![
        OsmRecord::Node(node(1, 100, 200)),
        OsmRecord::Node(node(1, 111, 222)),
    ];
    let data = OsmData::build_from_feed(records);
    assert_eq!(data.get_node_by_id(1).unwrap().decimicro_lon, 222);
}

#[test]
fn time_parts_splits_hours_minutes_seconds() {
    assert_eq!(time_parts(0), (0, 0, 0));
    assert_eq!(time_parts(59), (0, 0, 59));
    assert_eq!(time_parts(60), (0, 1, 0));
    assert_eq!(time_parts(3_661), (1, 1, 1));
    assert_eq!(time_parts(7_325), (2, 2, 5));
}
