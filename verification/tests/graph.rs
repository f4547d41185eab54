use geo::{Distance, Geodesic};
use open_rust_map::configuration::{CliCommand, Settings};
use open_rust_map::model::{build_graph, Edge, Graph, Node};
use open_rust_map::osm_data::{Coordinate, OsmData, RawNode, RawWay};

fn coord(lat: i32, lon: i32) -> Coordinate {
    Coordinate { decimicro_lat: lat, decimicro_lon: lon }
}

fn store_node(id: i64, lat: i32, lon: i32) -> RawNode {
    RawNode { id, decimicro_lat: lat, decimicro_lon: lon, tags: Vec::new() }
}

fn highway(id: i64, nodes: Vec<i64>) -> RawWay {
    RawWay { id, nodes, tags: vec![(String::from("highway"), String::from("residential"))] }
}

fn plain_way(id: i64, nodes: Vec<i64>) -> RawWay {
    RawWay { id, nodes, tags: vec![(String::from("waterway"), String::from("river"))] }
}

/// The same millimeter distance the library stores: geodesic meters times
/// a thousand, rounded.
fn mm(a: Coordinate, b: Coordinate) -> u64 {
    let pa = geo::Point::new(a.decimicro_lon as f64 / 1e7, a.decimicro_lat as f64 / 1e7);
    let pb = geo::Point::new(b.decimicro_lon as f64 / 1e7, b.decimicro_lat as f64 / 1e7);
    (Geodesic.distance(pa, pb) * 1000.0).round() as u64
}

const DEG: i32 = 10_000_000;

#[test]
fn edges_with_missing_endpoints_are_dropped() {
    let mut g = Graph::new();
    g.add_node(Node { id: 1, coordinate: coord(0, 0) });
    g.add_edge(Edge {
        source: 1,
        target: 2,
        distance: 5,
        way_id: 10,
        highway_type: None,
    });
    assert_eq!(g.edge_count(), 0);
    g.add_node(Node { id: 2, coordinate: coord(0, DEG) });
    g.add_edge(Edge {
        source: 1,
        target: 2,
        distance: 5,
        way_id: 10,
        highway_type: None,
    });
    assert_eq!(g.edge_count(), 1);
    assert_eq!(g.node_count(), 2);
    let idx = g.node_index(2).unwrap();
    assert_eq!(g.get_node(idx).id, 2);
    assert_eq!(g.get_node(idx).coordinate, coord(0, DEG));
}

#[test]
fn nodes_of_non_routable_ways_stay_out() {
    let mut data = OsmData::default();
    data.add_node(store_node(1, 0, 0));
    data.add_node(store_node(2, 0, DEG));
    data.add_node(store_node(3, DEG, 0));
    data.add_way(highway(10, vec![1, 2]));
    data.add_way(plain_way(11, vec![2, 3]));
    let g = build_graph(&data, &String::from("highway"));
    assert!(g.node_index(1).is_some());
    assert!(g.node_index(2).is_some());
    // node 3 is used only by the non-routable way
    assert!(g.node_index(3).is_none());
    assert_eq!(g.node_count(), 2);
    assert_eq!(g.edge_count(), 1);
}

#[test]
fn build_skips_identifiers_absent_from_store() {
    let mut data = OsmData::default();
    data.add_node(store_node(1, 0, 0));
    data.add_node(store_node(3, 0, 2 * DEG));
    // node 2 is referenced but not stored: its segments are dropped
    data.add_way(highway(10, vec![1, 2, 3]));
    let g = build_graph(&data, &String::from("highway"));
    assert_eq!(g.node_count(), 2);
    assert_eq!(g.edge_count(), 0);
    assert!(g.node_index(2).is_none());
}

#[test]
fn build_weights_edges_with_geodesic_millimeters() {
    let mut data = OsmData::default();
    data.add_node(store_node(1, 0, 0));
    data.add_node(store_node(2, 0, DEG));
    data.add_way(highway(10, vec![1, 2]));
    let g = build_graph(&data, &String::from("highway"));
    let i1 = g.node_index(1).unwrap();
    let i2 = g.node_index(2).unwrap();
    let (_, d) = g.find_shortest_path(i1, i2).unwrap();
    let expected = mm(coord(0, 0), coord(0, DEG));
    assert_eq!(d, expected as u128);
    // one degree of longitude at the equator is about 111.3 km
    assert!(expected > 111_000_000 && expected < 112_000_000);
}

#[test]
fn routable_key_is_configurable() {
    let mut data = OsmData::default();
    data.add_node(store_node(1, 0, 0));
    data.add_node(store_node(2, 0, DEG));
    data.add_way(plain_way(11, vec![1, 2]));
    let g = build_graph(&data, &String::from("waterway"));
    assert_eq!(g.node_count(), 2);
    assert_eq!(g.edge_count(), 1);
}

#[test]
fn nearest_node_minimizes_geodesic_distance() {
    let mut g = Graph::new();
    let coords = [
        coord(0, 0),
        coord(DEG / 2, DEG / 2),
        coord(DEG, DEG),
        coord(-DEG, 2 * DEG),
        coord(3 * DEG / 4, 3 * DEG / 4),
    ];
    for (i, c) in coords.iter().enumerate() {
        g.add_node(Node { id: i as i64, coordinate: *c });
    }
    let queries = [coord(0, 0), coord(DEG, DEG / 2), coord(-DEG / 2, DEG), coord(2 * DEG, 2 * DEG)];
    for q in queries.iter() {
        let best = g.get_nearest_node(q.decimicro_lat, q.decimicro_lon).unwrap();
        let best_d = mm(coords[best], *q);
        // exhaustive check: no node lies strictly nearer
        for c in coords.iter() {
            assert!(best_d <= mm(*c, *q));
        }
    }
}

#[test]
fn nearest_node_on_empty_graph_is_absent() {
    let g = Graph::new();
    assert!(g.get_nearest_node(0, 0).is_none());
}

#[test]
fn path_to_self_is_single_node_with_zero_distance() {
    let mut g = Graph::new();
    let a = g.add_node(Node { id: 1, coordinate: coord(0, 0) });
    let b = g.add_node(Node { id: 2, coordinate: coord(0, DEG) });
    g.add_edge(Edge {
        source: 1,
        target: 2,
        distance: 5,
        way_id: 10,
        highway_type: None,
    });
    assert_eq!(g.find_shortest_path(a, a).unwrap(), (vec![a], 0));
    assert_eq!(g.find_shortest_path(b, b).unwrap(), (vec![b], 0));
}

#[test]
fn disconnected_nodes_have_no_path() {
    let mut g = Graph::new();
    let a = g.add_node(Node { id: 1, coordinate: coord(0, 0) });
    let b = g.add_node(Node { id: 2, coordinate: coord(0, DEG) });
    let c = g.add_node(Node { id: 3, coordinate: coord(0, 2 * DEG) });
    let d = g.add_node(Node { id: 4, coordinate: coord(0, 3 * DEG) });
    g.add_edge(Edge { source: 1, target: 2, distance: 5, way_id: 10, highway_type: None });
    g.add_edge(Edge { source: 3, target: 4, distance: 5, way_id: 11, highway_type: None });
    assert!(g.find_shortest_path(a, b).is_some());
    assert!(g.find_shortest_path(a, c).is_none());
    assert!(g.find_shortest_path(b, d).is_none());
}

#[test]
fn chain_path_accumulates_both_segments() {
    // nodes N1(0,0), N2(0,1), N3(0,2) joined N1-N2, N3-N2 by routable way W1
    let n1 = coord(0, 0);
    let n2 = coord(0, DEG);
    let n3 = coord(0, 2 * DEG);
    let mut data = OsmData::default();
    data.add_node(store_node(1, n1.decimicro_lat, n1.decimicro_lon));
    data.add_node(store_node(2, n2.decimicro_lat, n2.decimicro_lon));
    data.add_node(store_node(3, n3.decimicro_lat, n3.decimicro_lon));
    data.add_way(highway(1, vec![1, 2, 3]));
    let g = build_graph(&data, &String::from("highway"));
    let i1 = g.node_index(1).unwrap();
    let i2 = g.node_index(2).unwrap();
    let i3 = g.node_index(3).unwrap();
    let (path, total) = g.find_shortest_path(i1, i3).unwrap();
    assert_eq!(path, vec![i1, i2, i3]);
    let d1 = mm(n1, n2) as u128;
    let d2 = mm(n2, n3) as u128;
    assert_eq!(total, d1 + d2);
}

#[test]
fn search_returns_the_minimum_over_all_paths() {
    // triangle: a long detour over node 3 against a direct segment
    let a = coord(0, 0);
    let b = coord(0, DEG / 100);
    let c = coord(DEG / 5, DEG / 200);
    let mut data = OsmData::default();
    data.add_node(store_node(1, a.decimicro_lat, a.decimicro_lon));
    data.add_node(store_node(2, b.decimicro_lat, b.decimicro_lon));
    data.add_node(store_node(3, c.decimicro_lat, c.decimicro_lon));
    data.add_way(highway(10, vec![1, 3, 2]));
    data.add_way(highway(11, vec![1, 2]));
    let g = build_graph(&data, &String::from("highway"));
    let i1 = g.node_index(1).unwrap();
    let i2 = g.node_index(2).unwrap();
    let i3 = g.node_index(3).unwrap();
    let (path, total) = g.find_shortest_path(i1, i2).unwrap();
    // exhaustive over the two simple routes
    let direct = mm(a, b) as u128;
    let detour = mm(a, c) as u128 + mm(c, b) as u128;
    assert!(direct < detour);
    assert_eq!(total, direct);
    assert_eq!(path, vec![i1, i2]);
    // and from the far corner the chain through the middle is forced
    let (path2, total2) = g.find_shortest_path(i3, i2).unwrap();
    let via_direct = mm(c, b) as u128;
    assert_eq!(total2, via_direct.min(mm(c, a) as u128 + direct));
    assert_eq!(path2, vec![i3, i2]);
}

#[test]
fn configuration_values_carry_plain_data() {
    let cli = CliCommand { config_file: None, pbf_file: String::from("region.pbf") };
    assert!(cli.config_file.is_none());
    let settings = Settings { log_level: String::from("info"), pbf_file: cli.pbf_file.clone() };
    assert_eq!(settings.pbf_file, "region.pbf");
    assert_eq!(settings.log_level, "info");
}
