//! The routable road graph: an undirected weighted graph over a subset of the
//! stored node identifiers, with a nearest-node query and a heuristic
//! best-first shortest-path search.
//!
//! Node handles are indices into contiguous storage, so the graph can be
//! built once and queried without lifetime hazards. Edge weights are
//! geodesic distances in whole millimeters.

use vstd::prelude::*;
use vstd::pervasive::VecAdditionalExecFns;
use vstd::std_specs::iter::IteratorSpec;
use vstd::assert_by_contradiction;
use vstd::set_lib::lemma_len_subset;
use vstd::set_lib::lemma_int_range;
use vstd::set_lib::set_int_range;
use std::collections::HashMap;
use crate::osm_data::Coordinate;
use crate::osm_data::OsmData;
use crate::osm_data::node_coord;
use crate::osm_data::spec_has_tag;
use crate::osm_data::spec_tag_value;
use crate::osm_data::has_tag;
use crate::osm_data::tag_value;
use crate::distance::geodesic_distance_mm;
use crate::distance::spec_dist;

verus! {

broadcast use vstd::std_specs::hash::group_hash_axioms;

/// A graph node: the source identifier and its coordinate. The graph owns
/// this copy; it holds no reference back into the record store.
#[derive(Debug)]
pub struct Node {
    pub id: i64,
    pub coordinate: Coordinate,
}

/// An edge handed to the graph: endpoints by source identifier, the
/// geodesic distance between them in millimeters, and the way it came from.
#[derive(Debug)]
pub struct Edge {
    pub source: i64,
    pub target: i64,
    pub distance: u64,
    pub way_id: i64,
    pub highway_type: Option<String>,
}

/// A stored edge: endpoints as node handles, weight and origin as given.
/// The graph is undirected; one stored edge joins both directions.
#[derive(Debug)]
pub struct GraphEdge {
    pub source: usize,
    pub target: usize,
    pub distance: u64,
    pub way_id: i64,
    pub highway_type: Option<String>,
}

/// The road graph: nodes in contiguous storage addressed by handle, the
/// handle of each source identifier, and the stored edges.
#[derive(Debug)]
pub struct Graph {
    nodes: Vec<Node>,
    node_indices: HashMap<i64, usize>,
    edges: Vec<GraphEdge>,
}

/// One frontier candidate of the best-first search: a node handle, the walk
/// that reached it, the walk's exact accumulated weight, and the weight plus
/// the heuristic estimate to the goal.
struct Candidate {
    node: usize,
    cost: u128,
    priority: u128,
    path: Vec<usize>,
    picks: Ghost<Seq<int>>,
}

impl Graph {
    /// The stored nodes, by handle.
    pub closed spec fn spec_nodes(&self) -> Seq<Node> {
        self.nodes@
    }

    /// The handle stored for each source identifier.
    pub closed spec fn spec_indices(&self) -> Map<i64, usize> {
        self.node_indices@
    }

    /// The stored edges.
    pub closed spec fn spec_edges(&self) -> Seq<GraphEdge> {
        self.edges@
    }

    /// Well-formed: the identifier map points at matching nodes, and every
    /// stored edge joins two node handles — an edge with a missing endpoint
    /// is never stored.
    pub open spec fn wf(&self) -> bool {
        &&& forall|id: i64|
            self.spec_indices().contains_key(id) ==> #[trigger] self.spec_indices()[id]
                < self.spec_nodes().len() && self.spec_nodes()[self.spec_indices()[id] as int].id
                == id
        &&& forall|k: int|
            0 <= k < self.spec_edges().len() ==> (#[trigger] self.spec_edges()[k]).source
                < self.spec_nodes().len() && self.spec_edges()[k].target < self.spec_nodes().len()
    }

    /// The empty graph.
    pub fn new() -> (g: Graph)
        ensures
            g.wf(),
            g.spec_nodes() == Seq::<Node>::empty(),
            g.spec_indices() == Map::<i64, usize>::empty(),
            g.spec_edges() == Seq::<GraphEdge>::empty(),
    {
        Graph { nodes: Vec::new(), node_indices: HashMap::new(), edges: Vec::new() }
    }

    /// How many nodes the graph holds.
    pub fn node_count(&self) -> (n: usize)
        ensures
            n == self.spec_nodes().len(),
    {
        self.nodes.len()
    }

    /// How many stored edges the graph holds.
    pub fn edge_count(&self) -> (n: usize)
        ensures
            n == self.spec_edges().len(),
    {
        self.edges.len()
    }

    /// The node stored under a handle.
    pub fn get_node(&self, idx: usize) -> (n: &Node)
        requires
            idx < self.spec_nodes().len(),
        ensures
            *n == self.spec_nodes()[idx as int],
    {
        &self.nodes[idx]
    }

    /// The handle of a source identifier, if the graph holds it.
    pub fn node_index(&self, id: i64) -> (r: Option<usize>)
        ensures
            match r {
                Some(idx) => self.spec_indices().contains_key(id) && idx == self.spec_indices()[id],
                None => !self.spec_indices().contains_key(id),
            },
    {
        match self.node_indices.get(&id) {
            Some(idx) => Some(*idx),
            None => None,
        }
    }

    /// Adds a node and returns its handle; the identifier map is pointed at
    /// the new node (overwrite-by-identifier).
    pub fn add_node(&mut self, node: Node) -> (idx: usize)
        requires
            old(self).wf(),
        ensures
            final(self).wf(),
            idx == old(self).spec_nodes().len(),
            final(self).spec_nodes() == old(self).spec_nodes().push(node),
            final(self).spec_indices() == old(self).spec_indices().insert(node.id, idx),
            final(self).spec_edges() == old(self).spec_edges(),
    {
        let idx = self.nodes.len();
        let id = node.id;
        self.nodes.push(node);
        self.node_indices.insert(id, idx);
        proof {
            assert forall|id2: i64| self.spec_indices().contains_key(id2) implies #[trigger] self
                .spec_indices()[id2] < self.spec_nodes().len() && self.spec_nodes()[self
                .spec_indices()[id2] as int].id == id2 by {
                if id2 != id {
                    assert(old(self).spec_indices().contains_key(id2));
                    assert(self.spec_indices()[id2] == old(self).spec_indices()[id2]);
                }
            }
        }
        idx
    }

    /// Adds an undirected edge between two source identifiers, if both are
    /// stored; an edge with a missing endpoint is silently dropped, since raw
    /// extracts may reference nodes outside the loaded region.
    pub fn add_edge(&mut self, edge: Edge)
        requires
            old(self).wf(),
        ensures
            final(self).wf(),
            final(self).spec_nodes() == old(self).spec_nodes(),
            final(self).spec_indices() == old(self).spec_indices(),
            ({
                let m = old(self).spec_indices();
                if m.contains_key(edge.source) && m.contains_key(edge.target) {
                    final(self).spec_edges() == old(self).spec_edges().push(
                        (GraphEdge {
                            source: m[edge.source],
                            target: m[edge.target],
                            distance: edge.distance,
                            way_id: edge.way_id,
                            highway_type: edge.highway_type,
                        }),
                    )
                } else {
                    final(self).spec_edges() == old(self).spec_edges()
                }
            }),
    {
        let si = match self.node_indices.get(&edge.source) {
            Some(i) => Some(*i),
            None => None,
        };
        let ti = match self.node_indices.get(&edge.target) {
            Some(i) => Some(*i),
            None => None,
        };
        if let (Some(source), Some(target)) = (si, ti) {
            self.edges.push(
                GraphEdge {
                    source,
                    target,
                    distance: edge.distance,
                    way_id: edge.way_id,
                    highway_type: edge.highway_type,
                },
            );
        }
    }

    /// The graph node whose coordinate lies nearest to the query coordinate
    /// (in geodesic distance), or absence on an empty graph. Ties go to the
    /// first minimum in handle order.
    pub fn get_nearest_node(&self, lat: i32, lon: i32) -> (r: Option<usize>)
        ensures
            match r {
                Some(best) => {
                    let q = query_coord(lat, lon);
                    &&& best < self.spec_nodes().len()
                    &&& forall|j: int|
                        0 <= j < self.spec_nodes().len() ==> spec_dist(
                            self.spec_nodes()[best as int].coordinate,
                            q,
                        ) <= spec_dist((#[trigger] self.spec_nodes()[j]).coordinate, q)
                    &&& forall|j: int|
                        0 <= j < best ==> spec_dist(
                            (#[trigger] self.spec_nodes()[j]).coordinate,
                            q,
                        ) > spec_dist(self.spec_nodes()[best as int].coordinate, q)
                },
                None => self.spec_nodes().len() == 0,
            },
    {
        if self.nodes.len() == 0 {
            return None;
        }
        let q = Coordinate { decimicro_lat: lat, decimicro_lon: lon };
        let mut best: usize = 0;
        let mut best_d = geodesic_distance_mm(&self.nodes[0].coordinate, &q);
        let mut j: usize = 1;
        while j < self.nodes.len()
            invariant
                1 <= j <= self.spec_nodes().len(),
                best < j,
                q == query_coord(lat, lon),
                best_d == spec_dist(self.spec_nodes()[best as int].coordinate, q),
                forall|k: int|
                    0 <= k < j ==> best_d <= spec_dist(
                        (#[trigger] self.spec_nodes()[k]).coordinate,
                        q,
                    ),
                forall|k: int|
                    0 <= k < best ==> spec_dist((#[trigger] self.spec_nodes()[k]).coordinate, q)
                        > best_d,
            decreases self.spec_nodes().len() - j,
        {
            let d = geodesic_distance_mm(&self.nodes[j].coordinate, &q);
            if d < best_d {
                best = j;
                best_d = d;
            }
            j = j + 1;
        }
        Some(best)
    }

    /// Best-first search from `start` to `end`: the frontier is ordered by
    /// accumulated weight plus the geodesic estimate to the goal. The result
    /// is a walk from `start` to `end` whose reported distance is exactly the
    /// sum of its edge weights; absence means no walk joins the two handles.
    /// `start == end` yields the single-node path with distance zero.
    pub fn find_shortest_path(&self, start: usize, end: usize) -> (r: Option<(Vec<usize>, u128)>)
        requires
            self.wf(),
            start < self.spec_nodes().len(),
            end < self.spec_nodes().len(),
        ensures
            match r {
                Some(pd) => {
                    &&& pd.0@.len() >= 1
                    &&& pd.0@[0] == start
                    &&& pd.0@.last() == end
                    &&& exists|ks: Seq<int>|
                        is_walk(self.spec_edges(), self.spec_nodes().len() as int, pd.0@, ks)
                            && pd.1 as int == walk_weight(self.spec_edges(), ks)
                },
                None => !has_path(self.spec_edges(), self.spec_nodes().len() as int, start, end),
            },
            start == end ==> r is Some && r.unwrap().0@ == seq![start] && r.unwrap().1 == 0,
    {
        let ghost es = self.spec_edges();
        let ghost nlen = self.spec_nodes().len() as int;

        if start == end {
            let mut p: Vec<usize> = Vec::new();
            p.push(start);
            proof {
                let ks = Seq::<int>::empty();
                assert(p@ =~= seq![start]);
                assert(is_walk(es, nlen, p@, ks));
                assert(walk_weight(es, ks) == 0);
            }
            return Some((p, 0));
        }

        let mut settled: Vec<bool> = Vec::new();
        while settled.len() < self.nodes.len()
            invariant
                settled@.len() <= self.spec_nodes().len(),
                forall|i: int| 0 <= i < settled@.len() ==> !(#[trigger] settled@[i]),
            decreases self.spec_nodes().len() - settled@.len(),
        {
            settled.push(false);
        }
        let ghost mut done = Set::<int>::empty();
        proof {
            lemma_int_range(0, nlen);
            assert(done.subset_of(set_int_range(0, nlen)));
        }

        let mut frontier: Vec<Candidate> = Vec::new();
        let h0 = geodesic_distance_mm(&self.nodes[start].coordinate, &self.nodes[end].coordinate);
        let mut p0: Vec<usize> = Vec::new();
        p0.push(start);
        proof {
            assert(p0@ =~= seq![start]);
            assert(is_walk(es, nlen, p0@, Seq::<int>::empty()));
        }
        frontier.push(
            Candidate {
                node: start,
                cost: 0,
                priority: h0 as u128,
                path: p0,
                picks: Ghost(Seq::empty()),
            },
        );
        proof {
            assert(frontier@[0].node == start);
            assert(in_frontier(frontier@, start));
            assert(walk_weight(es, Seq::<int>::empty()) == 0);
            assert(candidate_ok(es, nlen, start, frontier@[0], done));
        }

        while frontier.len() > 0
            invariant
                self.wf(),
                es == self.spec_edges(),
                nlen == self.spec_nodes().len() as int,
                0 <= nlen <= usize::MAX as int,
                start < nlen,
                end < nlen,
                start != end,
                settled@.len() as int == nlen,
                forall|i: int| 0 <= i < nlen ==> ((#[trigger] settled@[i]) <==> done.contains(i)),
                done.subset_of(set_int_range(0, nlen)),
                done.finite(),
                !done.contains(end as int),
                done.contains(start as int) || in_frontier(frontier@, start),
                forall|j: int|
                    0 <= j < frontier@.len() ==> candidate_ok(
                        es,
                        nlen,
                        start,
                        #[trigger] frontier@[j],
                        done,
                    ),
                forall|k: int| 0 <= k < es.len() ==> edge_ok(es, k, done, frontier@),
            decreases nlen - done.len(), frontier@.len(),
        {
            let mut best: usize = 0;
            let mut bi: usize = 1;
            while bi < frontier.len()
                invariant
                    frontier@.len() > 0,
                    best < frontier@.len(),
                    bi <= frontier@.len(),
                decreases frontier@.len() - bi,
            {
                if frontier[bi].priority < frontier[best].priority {
                    best = bi;
                }
                bi = bi + 1;
            }
            let ghost pre_frontier = frontier@;
            let cand = frontier.swap_remove(best);
            proof {
                assert(cand == pre_frontier[best as int]);
                assert forall|v: usize| in_frontier(pre_frontier, v) implies in_frontier(
                    frontier@,
                    v,
                ) || v == cand.node by {
                    let j = choose|j: int|
                        0 <= j < pre_frontier.len() && (#[trigger] pre_frontier[j]).node == v;
                    if j == best {
                    } else if j == pre_frontier.len() - 1 {
                        assert(frontier@[best as int] == pre_frontier[j]);
                    } else {
                        assert(frontier@[j] == pre_frontier[j]);
                    }
                }
                assert forall|j: int| 0 <= j < frontier@.len() implies candidate_ok(
                    es,
                    nlen,
                    start,
                    #[trigger] frontier@[j],
                    done,
                ) by {
                    if j == best {
                        assert(frontier@[j] == pre_frontier[pre_frontier.len() - 1]);
                    } else {
                        assert(frontier@[j] == pre_frontier[j]);
                    }
                }
            }
            if cand.node == end {
                proof {
                    assert(is_walk(es, nlen, cand.path@, cand.picks@) && cand.cost as int
                        == walk_weight(es, cand.picks@));
                }
                return Some((cand.path, cand.cost));
            }
            let node_settled = settled[cand.node];
            proof {
                if node_settled {
                    assert(done.contains(cand.node as int));
                }
            }
            if node_settled {
                proof {
                    assert forall|k2: int| 0 <= k2 < es.len() implies edge_ok(
                        es,
                        k2,
                        done,
                        frontier@,
                    ) by {
                        assert(edge_ok(es, k2, done, pre_frontier));
                        if done.contains(es[k2].source as int) && !done.contains(
                            es[k2].target as int,
                        ) {
                            assert(in_frontier(pre_frontier, es[k2].target));
                            assert(in_frontier(frontier@, es[k2].target) || es[k2].target
                                == cand.node);
                        }
                        if done.contains(es[k2].target as int) && !done.contains(
                            es[k2].source as int,
                        ) {
                            assert(in_frontier(pre_frontier, es[k2].source));
                            assert(in_frontier(frontier@, es[k2].source) || es[k2].source
                                == cand.node);
                        }
                    }
                    if !done.contains(start as int) {
                        assert(in_frontier(pre_frontier, start));
                        assert(in_frontier(frontier@, start) || start == cand.node);
                    }
                }
                continue;
            }
            settled.set(cand.node, true);
            let ghost pre_done = done;
            proof {
                done = done.insert(cand.node as int);
                assert(done.subset_of(set_int_range(0, nlen)));
                lemma_int_range(0, nlen);
                lemma_len_subset(done, set_int_range(0, nlen));
                assert(done.len() == pre_done.len() + 1);
                assert forall|j: int| 0 <= j < frontier@.len() implies candidate_ok(
                    es,
                    nlen,
                    start,
                    #[trigger] frontier@[j],
                    done,
                ) by {
                    assert(candidate_ok(es, nlen, start, frontier@[j], pre_done));
                    assert(pre_done.len() * (u64::MAX as int) <= done.len() * (u64::MAX as int))
                        by (nonlinear_arith)
                        requires done.len() == pre_done.len() + 1, pre_done.len() >= 0;
                }
                assert forall|k2: int|
                    0 <= k2 < es.len() && !((#[trigger] es[k2]).source == cand.node
                        || es[k2].target == cand.node) implies edge_ok(es, k2, done, frontier@) by {
                    assert(edge_ok(es, k2, pre_done, pre_frontier));
                    if done.contains(es[k2].source as int) && !done.contains(es[k2].target as int) {
                        assert(pre_done.contains(es[k2].source as int));
                        assert(in_frontier(pre_frontier, es[k2].target));
                        assert(in_frontier(frontier@, es[k2].target) || es[k2].target == cand.node);
                    }
                    if done.contains(es[k2].target as int) && !done.contains(es[k2].source as int) {
                        assert(pre_done.contains(es[k2].target as int));
                        assert(in_frontier(pre_frontier, es[k2].source));
                        assert(in_frontier(frontier@, es[k2].source) || es[k2].source == cand.node);
                    }
                }
                if !done.contains(start as int) {
                    assert(in_frontier(pre_frontier, start));
                    assert(in_frontier(frontier@, start) || start == cand.node);
                }
            }
            let mut k: usize = 0;
            while k < self.edges.len()
                invariant
                    self.wf(),
                    es == self.spec_edges(),
                    nlen == self.spec_nodes().len() as int,
                    0 <= nlen <= usize::MAX as int,
                    start < nlen,
                    end < nlen,
                    start != end,
                    k <= es.len(),
                    settled@.len() as int == nlen,
                    forall|i: int|
                        0 <= i < nlen ==> ((#[trigger] settled@[i]) <==> done.contains(i)),
                    done.subset_of(set_int_range(0, nlen)),
                    done.finite(),
                    done.len() <= nlen,
                    !done.contains(end as int),
                    done.contains(start as int) || in_frontier(frontier@, start),
                    done.contains(cand.node as int),
                    cand.node < nlen,
                    is_walk(es, nlen, cand.path@, cand.picks@),
                    cand.path@[0] == start,
                    cand.path@.last() == cand.node,
                    cand.cost as int == walk_weight(es, cand.picks@),
                    cand.cost as int + (u64::MAX as int) <= done.len() * (u64::MAX as int),
                    forall|j: int|
                        0 <= j < frontier@.len() ==> candidate_ok(
                            es,
                            nlen,
                            start,
                            #[trigger] frontier@[j],
                            done,
                        ),
                    forall|k2: int|
                        0 <= k2 < es.len() ==> edge_ok(es, k2, done, frontier@) || ((
                        (#[trigger] es[k2]).source == cand.node || es[k2].target == cand.node)
                            && k2 >= k),
                decreases es.len() - k,
            {
                let e = &self.edges[k];
                let mut nbr_opt: Option<usize> = None;
                if e.source == cand.node {
                    nbr_opt = Some(e.target);
                } else if e.target == cand.node {
                    nbr_opt = Some(e.source);
                }
                if let Some(nbr) = nbr_opt {
                    if !settled[nbr] {
                        let w = e.distance;
                        proof {
                            assert(done.len() * (u64::MAX as int) <= nlen * (u64::MAX as int))
                                by (nonlinear_arith)
                                requires 0 <= done.len() <= nlen;
                            assert(nlen * (u64::MAX as int) <= (usize::MAX as int) * (
                            u64::MAX as int)) by (nonlinear_arith)
                                requires 0 <= nlen <= usize::MAX as int;
                            assert((usize::MAX as int) * (u64::MAX as int) + (u64::MAX as int)
                                < u128::MAX as int);
                        }
                        let ncost = cand.cost + (w as u128);
                        let h = geodesic_distance_mm(
                            &self.nodes[nbr].coordinate,
                            &self.nodes[end].coordinate,
                        );
                        let mut np = clone_path(&cand.path);
                        np.push(nbr);
                        let ghost nks = cand.picks@.push(k as int);
                        proof {
                            assert(nks.drop_last() =~= cand.picks@);
                            assert(nks.last() == k as int);
                            assert(walk_weight(es, nks) == walk_weight(es, cand.picks@) + (
                            es[k as int].distance as int));
                            assert(connects(es, k as int, cand.node as int, nbr as int));
                            assert forall|i: int| 0 <= i < nks.len() implies connects(
                                es,
                                #[trigger] nks[i],
                                np@[i] as int,
                                np@[i + 1] as int,
                            ) by {
                                if i < nks.len() - 1 {
                                    assert(nks[i] == cand.picks@[i]);
                                    assert(np@[i] == cand.path@[i]);
                                    assert(np@[i + 1] == cand.path@[i + 1]);
                                } else {
                                    assert(np@[i] == cand.path@.last());
                                    assert(np@[i + 1] == nbr);
                                }
                            }
                            assert(is_walk(es, nlen, np@, nks));
                        }
                        let ghost pre_push = frontier@;
                        frontier.push(
                            Candidate {
                                node: nbr,
                                cost: ncost,
                                priority: ncost + (h as u128),
                                path: np,
                                picks: Ghost(nks),
                            },
                        );
                        proof {
                            assert forall|v: usize| in_frontier(pre_push, v) implies in_frontier(
                                frontier@,
                                v,
                            ) by {
                                let j = choose|j: int|
                                    0 <= j < pre_push.len() && (#[trigger] pre_push[j]).node == v;
                                assert(frontier@[j] == pre_push[j]);
                            }
                            assert(frontier@[frontier@.len() - 1].node == nbr);
                            assert(in_frontier(frontier@, nbr));
                            assert forall|j: int| 0 <= j < frontier@.len() implies candidate_ok(
                                es,
                                nlen,
                                start,
                                #[trigger] frontier@[j],
                                done,
                            ) by {
                                if j < frontier@.len() - 1 {
                                    assert(frontier@[j] == pre_push[j]);
                                }
                            }
                        }
                    } else {
                        proof {
                            assert(done.contains(nbr as int));
                        }
                    }
                }
                k = k + 1;
            }
        }
        proof {
            assert(frontier@.len() == 0);
            assert(done.contains(start as int));
            assert forall|k2: int|
                0 <= k2 < es.len() implies (done.contains(
                (#[trigger] es[k2]).source as int,
            ) ==> done.contains(es[k2].target as int)) && (done.contains(es[k2].target as int)
                ==> done.contains(es[k2].source as int)) by {
                assert(edge_ok(es, k2, done, frontier@));
                assert(!in_frontier(frontier@, es[k2].source));
                assert(!in_frontier(frontier@, es[k2].target));
            }
            assert_by_contradiction!(!has_path(es, nlen, start, end), {
                let (p, ks) = choose|p: Seq<usize>, ks: Seq<int>|
                    is_walk(es, nlen, p, ks) && p[0] == start && p.last() == end;
                lemma_walk_stays_settled(es, nlen, p, ks, done);
            });
        }
        None
    }
}

/// Copies a path of node handles.
fn clone_path(p: &Vec<usize>) -> (r: Vec<usize>)
    ensures
        r@ == p@,
{
    let mut out: Vec<usize> = Vec::new();
    let mut i: usize = 0;
    while i < p.len()
        invariant
            i <= p@.len(),
            out@ == p@.take(i as int),
        decreases p@.len() - i,
    {
        out.push(p[i]);
        proof {
            assert(out@ =~= p@.take(i as int + 1));
        }
        i = i + 1;
    }
    proof {
        assert(p@.take(p@.len() as int) =~= p@);
    }
    out
}

/// The edge at position `k` of the edge list joins handles `u` and `v`,
/// in either direction: the graph is undirected.
pub open spec fn connects(es: Seq<GraphEdge>, k: int, u: int, v: int) -> bool {
    &&& 0 <= k < es.len()
    &&& ((es[k].source == u && es[k].target == v) || (es[k].source == v && es[k].target == u))
}

/// `p` is a walk over node handles below `n`, each consecutive pair joined
/// by the stored edge that `ks` picks for it.
pub open spec fn is_walk(es: Seq<GraphEdge>, n: int, p: Seq<usize>, ks: Seq<int>) -> bool {
    &&& p.len() >= 1
    &&& ks.len() == p.len() - 1
    &&& forall|i: int| 0 <= i < p.len() ==> (#[trigger] p[i]) < n
    &&& forall|i: int| 0 <= i < ks.len() ==> connects(es, #[trigger] ks[i], p[i] as int, p[i + 1] as int)
}

/// The total weight of the edges `ks` picks.
pub open spec fn walk_weight(es: Seq<GraphEdge>, ks: Seq<int>) -> int
    decreases ks.len(),
{
    if ks.len() == 0 {
        0
    } else {
        walk_weight(es, ks.drop_last()) + (if 0 <= ks.last() < es.len() {
            es[ks.last()].distance as int
        } else {
            0
        })
    }
}

/// Some walk joins handle `u` to handle `v`.
pub open spec fn has_path(es: Seq<GraphEdge>, n: int, u: usize, v: usize) -> bool {
    exists|p: Seq<usize>, ks: Seq<int>|
        is_walk(es, n, p, ks) && p[0] == u && p.last() == v
}

/// Some frontier candidate stands at handle `v`.
spec fn in_frontier(fs: Seq<Candidate>, v: usize) -> bool {
    exists|j: int| 0 <= j < fs.len() && (#[trigger] fs[j]).node == v
}

/// A sound frontier candidate: it carries a walk from `start` to its handle
/// whose exact weight is its cost, and its cost is bounded by the number of
/// settled handles times the largest edge weight.
spec fn candidate_ok(es: Seq<GraphEdge>, n: int, start: usize, c: Candidate, done: Set<int>) -> bool {
    &&& is_walk(es, n, c.path@, c.picks@)
    &&& c.path@[0] == start
    &&& c.path@.last() == c.node
    &&& c.cost as int == walk_weight(es, c.picks@)
    &&& c.cost as int <= done.len() * (u64::MAX as int)
}

/// Both endpoints of a settled edge endpoint are settled or on the frontier.
spec fn edge_ok(es: Seq<GraphEdge>, k: int, done: Set<int>, fs: Seq<Candidate>) -> bool {
    &&& (done.contains(es[k].source as int) ==> done.contains(es[k].target as int) || in_frontier(
        fs,
        es[k].target,
    ))
    &&& (done.contains(es[k].target as int) ==> done.contains(es[k].source as int) || in_frontier(
        fs,
        es[k].source,
    ))
}

/// A walk that starts inside a set of handles closed under the edge relation
/// also ends inside it: the induction behind "an exhausted frontier means no
/// path exists".
proof fn lemma_walk_stays_settled(
    es: Seq<GraphEdge>,
    n: int,
    p: Seq<usize>,
    ks: Seq<int>,
    done: Set<int>,
)
    requires
        is_walk(es, n, p, ks),
        done.contains(p[0] as int),
        forall|k: int|
            0 <= k < es.len() ==> ((done.contains((#[trigger] es[k]).source as int)
                ==> done.contains(es[k].target as int)) && (done.contains(es[k].target as int)
                ==> done.contains(es[k].source as int))),
    ensures
        done.contains(p.last() as int),
    decreases p.len(),
{
    if p.len() == 1 {
    } else {
        assert(connects(es, ks[0], p[0] as int, p[1] as int));
        assert(done.contains(p[1] as int));
        let p2 = p.skip(1);
        let ks2 = ks.skip(1);
        assert forall|i: int| 0 <= i < ks2.len() implies connects(
            es,
            #[trigger] ks2[i],
            p2[i] as int,
            p2[i + 1] as int,
        ) by {
            assert(ks2[i] == ks[i + 1]);
            assert(p2[i] == p[i + 1]);
            assert(p2[i + 1] == p[i + 2]);
        }
        assert(is_walk(es, n, p2, ks2));
        lemma_walk_stays_settled(es, n, p2, ks2, done);
        assert(p2.last() == p.last());
    }
}

/// The identifiers of the ways that carry the routable-class key: exactly
/// the ways selected into the road graph.
fn routable_way_ids(store: &OsmData, key: &String) -> (r: Vec<i64>)
    ensures
        forall|j: int|
            0 <= j < r@.len() ==> store.ways@.contains_key(#[trigger] r@[j]) && spec_has_tag(
                store.ways@[r@[j]].tags@,
                key@,
            ),
        forall|wid: i64|
            store.ways@.contains_key(wid) && spec_has_tag(store.ways@[wid].tags@, key@)
                ==> r@.contains(wid),
{
    let ghost all = IteratorSpec::remaining(&vstd::std_specs::hash::spec_hash_map_iter(&store.ways));
    let ghost mut processed: int = 0;
    let mut out: Vec<i64> = Vec::new();
    for pair in it: store.ways.iter()
        invariant
            it.seq() == all,
            processed == it.index(),
            forall|j: int|
                0 <= j < out@.len() ==> store.ways@.contains_key(#[trigger] out@[j])
                    && spec_has_tag(store.ways@[out@[j]].tags@, key@),
            forall|j: int|
                0 <= j < processed ==> (spec_has_tag((*(#[trigger] all[j]).1).tags@, key@)
                    ==> out@.contains(*all[j].0)),
    {
        let wid = *pair.0;
        proof {
            assert(pair == it.seq()[it.index()]);
        }
        let ghost old_out = out@;
        let selected = has_tag(&pair.1.tags, key);
        if selected {
            out.push(wid);
        }
        proof {
            processed = processed + 1;
            assert forall|j: int|
                0 <= j < processed && spec_has_tag(
                    (*(#[trigger] all[j]).1).tags@,
                    key@,
                ) implies out@.contains(*all[j].0) by {
                if j == processed - 1 {
                    assert(all[j] == pair);
                    assert(selected);
                    assert(out@ == old_out.push(wid));
                    assert(out@.last() == wid);
                    assert(out@.contains(wid));
                } else {
                    assert(old_out.contains(*all[j].0));
                    let i = choose|i: int| 0 <= i < old_out.len() && old_out[i] == *all[j].0;
                    assert(out@[i] == *all[j].0);
                }
            }
        }
    }
    proof {
        assert(processed == all.len());
        assert forall|wid: i64|
            store.ways@.contains_key(wid) && spec_has_tag(
                store.ways@[wid].tags@,
                key@,
            ) implies out@.contains(wid) by {
            assert(all.contains((&wid, &store.ways@[wid])));
            let j = choose|j: int|
                0 <= j < all.len() && (#[trigger] all[j]) == (&wid, &store.ways@[wid]);
            assert(spec_has_tag((*all[j].1).tags@, key@));
        }
    }
    out
}

/// Whether `id` belongs in the road graph: it is a stored node referenced by
/// at least one stored way that carries the routable-class key.
pub open spec fn routable_node(store: OsmData, key: Seq<char>, id: i64) -> bool {
    &&& store.nodes@.contains_key(id)
    &&& exists|w: i64|
        #[trigger] store.ways@.contains_key(w) && spec_has_tag(store.ways@[w].tags@, key)
            && store.ways@[w].nodes@.contains(id)
}

/// An optional string as an optional character sequence.
pub open spec fn opt_string_view(o: Option<String>) -> Option<Seq<char>> {
    match o {
        Some(s) => Some(s@),
        None => None,
    }
}

/// The stored edge `e` records position `p` of routable way `wid`: handles,
/// weight, originating way and road-class value all match the store.
pub open spec fn edge_matches(
    store: OsmData,
    key: Seq<char>,
    g: Graph,
    e: GraphEdge,
    wid: i64,
    p: int,
) -> bool {
    &&& store.ways@.contains_key(wid)
    &&& spec_has_tag(store.ways@[wid].tags@, key)
    &&& 0 <= p < store.ways@[wid].nodes@.len() - 1
    &&& ({
        let a = store.ways@[wid].nodes@[p];
        let b = store.ways@[wid].nodes@[p + 1];
        &&& g.spec_indices().contains_key(a)
        &&& g.spec_indices().contains_key(b)
        &&& store.nodes@.contains_key(a)
        &&& store.nodes@.contains_key(b)
        &&& e.source == g.spec_indices()[a]
        &&& e.target == g.spec_indices()[b]
        &&& e.way_id == wid
        &&& e.distance == spec_dist(node_coord(store.nodes@[a]), node_coord(store.nodes@[b]))
        &&& opt_string_view(e.highway_type) == spec_tag_value(store.ways@[wid].tags@, key)
    })
}

/// The edge `e` records some consecutive pair of some routable way.
pub open spec fn edge_sound(store: OsmData, key: Seq<char>, g: Graph, e: GraphEdge) -> bool {
    exists|wid: i64, p: int| #[trigger] edge_matches(store, key, g, e, wid, p)
}

/// Some stored edge of `g` records position `p` of way `wid`.
pub open spec fn has_way_edge(store: OsmData, key: Seq<char>, g: Graph, wid: i64, p: int) -> bool {
    exists|k: int|
        0 <= k < g.spec_edges().len() && edge_matches(
            store,
            key,
            g,
            #[trigger] g.spec_edges()[k],
            wid,
            p,
        )
}

/// `id` stands at some position of the way-identifier prefix: among the ways
/// `rws[0..wi]` whole, plus positions `0..ni` of `rws[wi]`.
spec fn referenced_in_prefix(store: OsmData, rws: Seq<i64>, wi: int, ni: int, id: i64) -> bool {
    exists|j: int, p: int|
        #![trigger store.ways@[rws[j]].nodes@[p]]
        0 <= j < rws.len() && 0 <= p < store.ways@[rws[j]].nodes@.len() && (j < wi || (j == wi && p
            < ni)) && store.ways@[rws[j]].nodes@[p] == id
}

proof fn lemma_prefix_empty(store: OsmData, rws: Seq<i64>)
    ensures
        forall|id: i64| !referenced_in_prefix(store, rws, 0, 0, id),
{
}

proof fn lemma_prefix_step(store: OsmData, rws: Seq<i64>, wi: int, ni: int)
    requires
        0 <= wi < rws.len(),
        store.ways@.contains_key(rws[wi]),
        0 <= ni < store.ways@[rws[wi]].nodes@.len(),
    ensures
        forall|id: i64|
            referenced_in_prefix(store, rws, wi, ni + 1, id) <==> (referenced_in_prefix(
                store,
                rws,
                wi,
                ni,
                id,
            ) || id == store.ways@[rws[wi]].nodes@[ni]),
{
    assert forall|id: i64|
        referenced_in_prefix(store, rws, wi, ni + 1, id) <==> (referenced_in_prefix(
            store,
            rws,
            wi,
            ni,
            id,
        ) || id == store.ways@[rws[wi]].nodes@[ni]) by {
        if referenced_in_prefix(store, rws, wi, ni + 1, id) {
            let (j, p) = choose|j: int, p: int|
                #![trigger store.ways@[rws[j]].nodes@[p]]
                0 <= j < rws.len() && 0 <= p < store.ways@[rws[j]].nodes@.len() && (j < wi || (j
                    == wi && p < ni + 1)) && store.ways@[rws[j]].nodes@[p] == id;
            if j < wi || (j == wi && p < ni) {
                assert(referenced_in_prefix(store, rws, wi, ni, id));
            } else {
                assert(j == wi && p == ni);
            }
        }
        if referenced_in_prefix(store, rws, wi, ni, id) {
            let (j, p) = choose|j: int, p: int|
                #![trigger store.ways@[rws[j]].nodes@[p]]
                0 <= j < rws.len() && 0 <= p < store.ways@[rws[j]].nodes@.len() && (j < wi || (j
                    == wi && p < ni)) && store.ways@[rws[j]].nodes@[p] == id;
            assert(referenced_in_prefix(store, rws, wi, ni + 1, id));
        }
        if id == store.ways@[rws[wi]].nodes@[ni] {
            assert(referenced_in_prefix(store, rws, wi, ni + 1, id));
        }
    }
}

proof fn lemma_prefix_way_shift(store: OsmData, rws: Seq<i64>, wi: int)
    requires
        0 <= wi < rws.len(),
    ensures
        forall|id: i64|
            referenced_in_prefix(store, rws, wi + 1, 0, id) <==> referenced_in_prefix(
                store,
                rws,
                wi,
                store.ways@[rws[wi]].nodes@.len() as int,
                id,
            ),
{
    let full = store.ways@[rws[wi]].nodes@.len() as int;
    assert forall|id: i64|
        referenced_in_prefix(store, rws, wi + 1, 0, id) <==> referenced_in_prefix(
            store,
            rws,
            wi,
            full,
            id,
        ) by {
        if referenced_in_prefix(store, rws, wi + 1, 0, id) {
            let (j, p) = choose|j: int, p: int|
                #![trigger store.ways@[rws[j]].nodes@[p]]
                0 <= j < rws.len() && 0 <= p < store.ways@[rws[j]].nodes@.len() && (j < wi + 1 || (
                j == wi + 1 && p < 0)) && store.ways@[rws[j]].nodes@[p] == id;
            assert(referenced_in_prefix(store, rws, wi, full, id));
        }
        if referenced_in_prefix(store, rws, wi, full, id) {
            let (j, p) = choose|j: int, p: int|
                #![trigger store.ways@[rws[j]].nodes@[p]]
                0 <= j < rws.len() && 0 <= p < store.ways@[rws[j]].nodes@.len() && (j < wi || (j
                    == wi && p < full)) && store.ways@[rws[j]].nodes@[p] == id;
            assert(referenced_in_prefix(store, rws, wi + 1, 0, id));
        }
    }
}

/// Builds the road graph from the record store. Ways carrying the
/// routable-class key contribute their stored nodes, and one edge per
/// consecutive stored pair, weighted by the geodesic distance between the
/// two coordinates. A node is in the graph exactly when some routable way
/// references it and the store holds it; identifiers a routable way
/// references but the store lacks are skipped, not fatal.
#[verifier::rlimit(80)]
pub fn build_graph(store: &OsmData, routable_key: &String) -> (g: Graph)
    ensures
        g.wf(),
        forall|id: i64|
            #[trigger] g.spec_indices().contains_key(id) <==> routable_node(
                *store,
                routable_key@,
                id,
            ),
        forall|id: i64|
            #[trigger] g.spec_indices().contains_key(id) ==> g.spec_indices()[id]
                < g.spec_nodes().len() && g.spec_nodes()[g.spec_indices()[id] as int] == (Node {
                id,
                coordinate: node_coord(store.nodes@[id]),
            }),
        forall|k: int|
            0 <= k < g.spec_edges().len() ==> edge_sound(
                *store,
                routable_key@,
                g,
                #[trigger] g.spec_edges()[k],
            ),
        forall|wid: i64, p: int|
            #![trigger store.ways@[wid].nodes@[p]]
            (store.ways@.contains_key(wid) && spec_has_tag(store.ways@[wid].tags@, routable_key@)
                && 0 <= p < store.ways@[wid].nodes@.len() - 1 && g.spec_indices().contains_key(
                store.ways@[wid].nodes@[p],
            ) && g.spec_indices().contains_key(store.ways@[wid].nodes@[p + 1]))
                ==> has_way_edge(*store, routable_key@, g, wid, p),
{
    let rws = routable_way_ids(store, routable_key);
    let mut g = Graph::new();
    proof {
        lemma_prefix_empty(*store, rws@);
    }
    let mut wi: usize = 0;
    while wi < rws.len()
        invariant
            g.wf(),
            wi <= rws@.len(),
            g.spec_edges() == Seq::<GraphEdge>::empty(),
            forall|j: int|
                0 <= j < rws@.len() ==> store.ways@.contains_key(#[trigger] rws@[j])
                    && spec_has_tag(store.ways@[rws@[j]].tags@, routable_key@),
            forall|id: i64|
                #[trigger] g.spec_indices().contains_key(id) <==> (store.nodes@.contains_key(id)
                    && referenced_in_prefix(*store, rws@, wi as int, 0, id)),
            forall|id: i64|
                #[trigger] g.spec_indices().contains_key(id) ==> g.spec_indices()[id]
                    < g.spec_nodes().len() && g.spec_nodes()[g.spec_indices()[id] as int] == (Node {
                    id,
                    coordinate: node_coord(store.nodes@[id]),
                }),
        decreases rws@.len() - wi,
    {
        let wid = rws[wi];
        let way = store.get_way_by_id(wid).unwrap();
        let mut ni: usize = 0;
        while ni < way.nodes.len()
            invariant
                g.wf(),
                wi < rws@.len(),
                ni <= way.nodes@.len(),
                g.spec_edges() == Seq::<GraphEdge>::empty(),
                rws@[wi as int] == wid,
                store.ways@.contains_key(wid),
                *way == store.ways@[wid],
                forall|id: i64|
                    #[trigger] g.spec_indices().contains_key(id) <==> (
                    store.nodes@.contains_key(id) && referenced_in_prefix(
                        *store,
                        rws@,
                        wi as int,
                        ni as int,
                        id,
                    )),
                forall|id: i64|
                    #[trigger] g.spec_indices().contains_key(id) ==> g.spec_indices()[id]
                        < g.spec_nodes().len() && g.spec_nodes()[g.spec_indices()[id] as int] == (
                    Node { id, coordinate: node_coord(store.nodes@[id]) }),
            decreases way.nodes@.len() - ni,
        {
            let nid = way.nodes[ni];
            let ghost pre = g;
            if g.node_index(nid).is_none() {
                if let Some(n) = store.get_node_by_id(nid) {
                    let c = Coordinate {
                        decimicro_lat: n.decimicro_lat,
                        decimicro_lon: n.decimicro_lon,
                    };
                    g.add_node(Node { id: nid, coordinate: c });
                }
            }
            proof {
                lemma_prefix_step(*store, rws@, wi as int, ni as int);
                assert forall|id: i64|
                    #[trigger] g.spec_indices().contains_key(id) <==> (
                    store.nodes@.contains_key(id) && referenced_in_prefix(
                        *store,
                        rws@,
                        wi as int,
                        ni as int + 1,
                        id,
                    )) by {
                    if id != nid {
                        assert(g.spec_indices().contains_key(id) == pre.spec_indices()
                            .contains_key(id));
                    }
                }
            }
            ni = ni + 1;
        }
        proof {
            lemma_prefix_way_shift(*store, rws@, wi as int);
        }
        wi = wi + 1;
    }
    proof {
        assert forall|id: i64|
            #[trigger] g.spec_indices().contains_key(id) <==> routable_node(
                *store,
                routable_key@,
                id,
            ) by {
            if g.spec_indices().contains_key(id) {
                let (j, p) = choose|j: int, p: int|
                    #![trigger store.ways@[rws@[j]].nodes@[p]]
                    0 <= j < rws@.len() && 0 <= p < store.ways@[rws@[j]].nodes@.len() && (j
                        < rws@.len() as int || (j == rws@.len() as int && p < 0))
                        && store.ways@[rws@[j]].nodes@[p] == id;
                assert(store.ways@.contains_key(rws@[j]));
                assert(store.ways@[rws@[j]].nodes@.contains(id));
                assert(routable_node(*store, routable_key@, id));
            }
            if routable_node(*store, routable_key@, id) {
                let w = choose|w: i64|
                    #[trigger] store.ways@.contains_key(w) && spec_has_tag(
                        store.ways@[w].tags@,
                        routable_key@,
                    ) && store.ways@[w].nodes@.contains(id);
                assert(rws@.contains(w));
                let j = choose|j: int| 0 <= j < rws@.len() && rws@[j] == w;
                let p = choose|p: int|
                    0 <= p < store.ways@[w].nodes@.len() && store.ways@[w].nodes@[p] == id;
                assert(store.ways@[rws@[j]].nodes@[p] == id);
                assert(referenced_in_prefix(*store, rws@, rws@.len() as int, 0, id));
            }
        }
    }
    let ghost indices_after_nodes = g.spec_indices();
    let mut wi2: usize = 0;
    while wi2 < rws.len()
        invariant
            g.wf(),
            wi2 <= rws@.len(),
            g.spec_indices() == indices_after_nodes,
            forall|j: int|
                0 <= j < rws@.len() ==> store.ways@.contains_key(#[trigger] rws@[j])
                    && spec_has_tag(store.ways@[rws@[j]].tags@, routable_key@),
            forall|id: i64|
                #[trigger] g.spec_indices().contains_key(id) <==> routable_node(
                    *store,
                    routable_key@,
                    id,
                ),
            forall|id: i64|
                #[trigger] g.spec_indices().contains_key(id) ==> g.spec_indices()[id]
                    < g.spec_nodes().len() && g.spec_nodes()[g.spec_indices()[id] as int] == (Node {
                    id,
                    coordinate: node_coord(store.nodes@[id]),
                }),
            forall|k: int|
                0 <= k < g.spec_edges().len() ==> edge_sound(
                    *store,
                    routable_key@,
                    g,
                    #[trigger] g.spec_edges()[k],
                ),
            forall|j: int, p: int|
                #![trigger store.ways@[rws@[j]].nodes@[p]]
                (0 <= j < rws@.len() && 0 <= p < store.ways@[rws@[j]].nodes@.len() - 1 && j
                    < wi2 as int && g.spec_indices().contains_key(store.ways@[rws@[j]].nodes@[p])
                    && g.spec_indices().contains_key(store.ways@[rws@[j]].nodes@[p + 1]))
                    ==> has_way_edge(*store, routable_key@, g, rws@[j], p),
        decreases rws@.len() - wi2,
    {
        let wid = rws[wi2];
        let way = store.get_way_by_id(wid).unwrap();
        let segs = way.nodes.len();
        let mut p: usize = 0;
        while segs > 0 && p < segs - 1
            invariant
                g.wf(),
                wi2 < rws@.len(),
                segs == way.nodes@.len(),
                segs > 0 ==> p <= segs - 1,
                segs == 0 ==> p == 0,
                g.spec_indices() == indices_after_nodes,
                rws@[wi2 as int] == wid,
                store.ways@.contains_key(wid),
                spec_has_tag(store.ways@[wid].tags@, routable_key@),
                *way == store.ways@[wid],
                forall|id: i64|
                    #[trigger] g.spec_indices().contains_key(id) <==> routable_node(
                        *store,
                        routable_key@,
                        id,
                    ),
                forall|id: i64|
                    #[trigger] g.spec_indices().contains_key(id) ==> g.spec_indices()[id]
                        < g.spec_nodes().len() && g.spec_nodes()[g.spec_indices()[id] as int] == (
                    Node { id, coordinate: node_coord(store.nodes@[id]) }),
                forall|k: int|
                    0 <= k < g.spec_edges().len() ==> edge_sound(
                        *store,
                        routable_key@,
                        g,
                        #[trigger] g.spec_edges()[k],
                    ),
                forall|j: int, p2: int|
                    #![trigger store.ways@[rws@[j]].nodes@[p2]]
                    (0 <= j < rws@.len() && 0 <= p2 < store.ways@[rws@[j]].nodes@.len() - 1 && (j
                        < wi2 as int || (j == wi2 as int && p2 < p as int))
                        && g.spec_indices().contains_key(store.ways@[rws@[j]].nodes@[p2])
                        && g.spec_indices().contains_key(store.ways@[rws@[j]].nodes@[p2 + 1]))
                        ==> has_way_edge(*store, routable_key@, g, rws@[j], p2),
            decreases way.nodes@.len() - p,
        {
            let a = way.nodes[p];
            let b = way.nodes[p + 1];
            let ghost pre = g;
            let ia = g.node_index(a);
            let ib = g.node_index(b);
            if ia.is_some() && ib.is_some() {
                let na = store.get_node_by_id(a).unwrap();
                let nb = store.get_node_by_id(b).unwrap();
                let ca = Coordinate {
                    decimicro_lat: na.decimicro_lat,
                    decimicro_lon: na.decimicro_lon,
                };
                let cb = Coordinate {
                    decimicro_lat: nb.decimicro_lat,
                    decimicro_lon: nb.decimicro_lon,
                };
                let dist = geodesic_distance_mm(&ca, &cb);
                let hwy = match tag_value(&way.tags, routable_key) {
                    Some(v) => Some(v.clone()),
                    None => None,
                };
                g.add_edge(
                    Edge {
                        source: a,
                        target: b,
                        distance: dist,
                        way_id: wid,
                        highway_type: hwy,
                    },
                );
                proof {
                    let es = g.spec_edges();
                    assert(es == pre.spec_edges().push(es.last()));
                    assert(edge_matches(
                        *store,
                        routable_key@,
                        g,
                        es.last(),
                        wid,
                        p as int,
                    ));
                    assert(edge_sound(*store, routable_key@, g, es.last()));
                    assert forall|k: int|
                        0 <= k < es.len() implies edge_sound(
                        *store,
                        routable_key@,
                        g,
                        #[trigger] es[k],
                    ) by {
                        if k < es.len() - 1 {
                            assert(es[k] == pre.spec_edges()[k]);
                            assert(edge_sound(*store, routable_key@, pre, es[k]));
                            let (wid2, p2) = choose|wid2: i64, p2: int|
                                #[trigger] edge_matches(
                                    *store,
                                    routable_key@,
                                    pre,
                                    es[k],
                                    wid2,
                                    p2,
                                );
                            assert(edge_matches(*store, routable_key@, g, es[k], wid2, p2));
                        }
                    }
                    assert(has_way_edge(*store, routable_key@, g, wid, p as int));
                }
            }
            proof {
                assert forall|j: int, p2: int|
                    (0 <= j < rws@.len() && 0 <= p2 < store.ways@[rws@[j]].nodes@.len() - 1 && (j
                        < wi2 as int || (j == wi2 as int && p2 < p as int + 1))
                        && g.spec_indices().contains_key(
                        #[trigger] store.ways@[rws@[j]].nodes@[p2],
                    ) && g.spec_indices().contains_key(store.ways@[rws@[j]].nodes@[p2 + 1]))
                        implies has_way_edge(*store, routable_key@, g, rws@[j], p2) by {
                    if j == wi2 as int && p2 == p as int {
                        assert(ia is Some && ib is Some);
                    } else {
                        assert(has_way_edge(*store, routable_key@, pre, rws@[j], p2));
                        let k = choose|k: int|
                            0 <= k < pre.spec_edges().len() && edge_matches(
                                *store,
                                routable_key@,
                                pre,
                                #[trigger] pre.spec_edges()[k],
                                rws@[j],
                                p2,
                            );
                        assert(g.spec_edges()[k] == pre.spec_edges()[k]);
                        assert(edge_matches(
                            *store,
                            routable_key@,
                            g,
                            g.spec_edges()[k],
                            rws@[j],
                            p2,
                        ));
                    }
                }
            }
            p = p + 1;
        }
        proof {
            assert forall|j: int, p2: int|
                (0 <= j < rws@.len() && 0 <= p2 < store.ways@[rws@[j]].nodes@.len() - 1 && j < wi2
                    as int + 1 && g.spec_indices().contains_key(
                    #[trigger] store.ways@[rws@[j]].nodes@[p2],
                ) && g.spec_indices().contains_key(store.ways@[rws@[j]].nodes@[p2 + 1]))
                    implies has_way_edge(*store, routable_key@, g, rws@[j], p2) by {
                if j == wi2 as int {
                    assert(0 <= p2 < way.nodes@.len() - 1);
                }
            }
        }
        wi2 = wi2 + 1;
    }
    proof {
        assert forall|wid: i64, p: int|
            (store.ways@.contains_key(wid) && spec_has_tag(store.ways@[wid].tags@, routable_key@)
                && 0 <= p < store.ways@[wid].nodes@.len() - 1 && g.spec_indices().contains_key(
                #[trigger] store.ways@[wid].nodes@[p],
            ) && g.spec_indices().contains_key(store.ways@[wid].nodes@[p + 1]))
                implies has_way_edge(*store, routable_key@, g, wid, p) by {
            assert(rws@.contains(wid));
            let j = choose|j: int| 0 <= j < rws@.len() && rws@[j] == wid;
            assert(store.ways@[rws@[j]].nodes@[p] == store.ways@[wid].nodes@[p]);
        }
    }
    g
}

/// For all ways not carrying the routable-class key, none of their nodes
/// enter the road graph on their account: a node referenced by no routable
/// way is absent from a graph whose node set is the routable one.
pub proof fn lemma_non_routable_ways_add_no_nodes(
    store: OsmData,
    key: Seq<char>,
    g: Graph,
    id: i64,
)
    requires
        forall|id2: i64|
            #[trigger] g.spec_indices().contains_key(id2) <==> routable_node(store, key, id2),
        forall|w: i64|
            #[trigger] store.ways@.contains_key(w) && store.ways@[w].nodes@.contains(id)
                ==> !spec_has_tag(store.ways@[w].tags@, key),
    ensures
        !g.spec_indices().contains_key(id),
{
    if g.spec_indices().contains_key(id) {
        let w = choose|w: i64|
            #[trigger] store.ways@.contains_key(w) && spec_has_tag(store.ways@[w].tags@, key)
                && store.ways@[w].nodes@.contains(id);
        assert(false);
    }
}

/// A query coordinate assembled from its two fixed-point parts.
pub open spec fn query_coord(lat: i32, lon: i32) -> Coordinate {
    Coordinate { decimicro_lat: lat, decimicro_lon: lon }
}

/// Every stored edge of a well-formed graph joins two node handles: edges
/// with a missing endpoint are never stored.
pub proof fn lemma_edge_endpoints_are_nodes(g: Graph)
    requires
        g.wf(),
    ensures
        forall|k: int|
            0 <= k < g.spec_edges().len() ==> (#[trigger] g.spec_edges()[k]).source
                < g.spec_nodes().len() && g.spec_edges()[k].target < g.spec_nodes().len(),
{
}

} // verus!
