//! The record store: raw map records (nodes, ways, relations with tags) keyed
//! by identifier, and the recursive resolution of relation geometry into
//! coordinate sequences.

use vstd::prelude::*;
use std::collections::HashMap;

verus! {

broadcast use vstd::std_specs::hash::group_hash_axioms;

// ---------------------------------------------------------------------------
// Tags
// ---------------------------------------------------------------------------

/// The value of the first pair in `tags` whose key reads `key`, if any.
pub open spec fn spec_tag_value(tags: Seq<(String, String)>, key: Seq<char>) -> Option<Seq<char>>
    decreases tags.len(),
{
    if tags.len() == 0 {
        None
    } else if tags[0].0@ == key {
        Some(tags[0].1@)
    } else {
        spec_tag_value(tags.skip(1), key)
    }
}

/// Whether some pair in `tags` has the key `key`.
pub open spec fn spec_has_tag(tags: Seq<(String, String)>, key: Seq<char>) -> bool {
    spec_tag_value(tags, key) is Some
}

/// Looks `key` up in a tag list; returns the value of the first matching pair.
pub fn tag_value<'a>(tags: &'a Vec<(String, String)>, key: &String) -> (r: Option<&'a String>)
    ensures
        match r {
            Some(v) => spec_tag_value(tags@, key@) == Some(v@),
            None => spec_tag_value(tags@, key@) is None,
        },
{
    let mut i: usize = 0;
    proof {
        assert(tags@.skip(0) =~= tags@);
    }
    while i < tags.len()
        invariant
            i <= tags@.len(),
            spec_tag_value(tags@, key@) == spec_tag_value(tags@.skip(i as int), key@),
        decreases tags@.len() - i,
    {
        if tags[i].0.eq(key) {
            assert(tags@.skip(i as int)[0] == tags@[i as int]);
            return Some(&tags[i].1);
        }
        proof {
            assert(tags@.skip(i as int)[0] == tags@[i as int]);
            assert(tags@.skip(i as int).skip(1) =~= tags@.skip(i as int + 1));
        }
        i = i + 1;
    }
    proof {
        assert(tags@.skip(i as int) =~= Seq::<(String, String)>::empty());
    }
    None
}

/// Whether a tag list holds the key `key`.
pub fn has_tag(tags: &Vec<(String, String)>, key: &String) -> (r: bool)
    ensures
        r == spec_has_tag(tags@, key@),
{
    tag_value(tags, key).is_some()
}

/// Copies a tag list, pair by pair.
pub fn copy_tags(tags: &Vec<(String, String)>) -> (r: Vec<(String, String)>)
    ensures
        r@ == tags@,
{
    let mut out: Vec<(String, String)> = Vec::new();
    let mut i: usize = 0;
    while i < tags.len()
        invariant
            i <= tags@.len(),
            out@ == tags@.take(i as int),
        decreases tags@.len() - i,
    {
        let p = &tags[i];
        out.push((p.0.clone(), p.1.clone()));
        proof {
            assert(out@ =~= tags@.take(i as int + 1));
        }
        i = i + 1;
    }
    proof {
        assert(tags@.take(tags@.len() as int) =~= tags@);
    }
    out
}

// ---------------------------------------------------------------------------
// Roles
// ---------------------------------------------------------------------------

/// The case-folded form of a role string. Named, not defined: the value is
/// whatever std's lowercase conversion returns, a function of the characters
/// alone.
pub uninterp spec fn lower_of(s: Seq<char>) -> Seq<char>;

/// Relies on `str::to_lowercase`: its result depends on the characters of
/// `s` alone.
#[verifier::external_body]
fn to_lowercase_string(s: &str) -> (r: String)
    ensures
        r@ == lower_of(s@),
{
    s.to_lowercase()
}

/// Whether a member role, case-folded, reads "outer": such members form the
/// exterior ring of a multipolygon relation.
pub open spec fn is_outer_role(role: Seq<char>) -> bool {
    lower_of(role) == "outer"@
}

/// Case-folds a role and compares it with "outer".
fn role_is_outer(role: &String) -> (b: bool)
    ensures
        b == is_outer_role(role@),
{
    let lowered = to_lowercase_string(role.as_str());
    lowered.eq(&"outer".to_owned())
}

// ---------------------------------------------------------------------------
// Raw records
// ---------------------------------------------------------------------------

/// A geographic coordinate in fixed-point decimicro-degrees (10^-7 degrees),
/// exactly as the raw extract stores it.
#[derive(Clone, Copy, Debug, PartialEq, Eq, Structural)]
pub struct Coordinate {
    pub decimicro_lat: i32,
    pub decimicro_lon: i32,
}

/// A raw map node: an identifier, a fixed-point coordinate, and tags.
#[derive(Debug)]
pub struct RawNode {
    pub id: i64,
    pub decimicro_lat: i32,
    pub decimicro_lon: i32,
    pub tags: Vec<(String, String)>,
}

/// A raw way: an ordered list of node identifiers and tags. Consecutive
/// entries of `nodes` form the way's segments.
#[derive(Debug)]
pub struct RawWay {
    pub id: i64,
    pub nodes: Vec<i64>,
    pub tags: Vec<(String, String)>,
}

/// A reference held by a relation member: one of the three record kinds,
/// by identifier. The identifier spaces are independent.
#[derive(Clone, Copy, Debug, PartialEq, Eq, Structural)]
pub enum MemberId {
    Node(i64),
    Way(i64),
    Relation(i64),
}

/// One member of a relation: a free-form role string and a reference.
#[derive(Debug)]
pub struct RelationMember {
    pub role: String,
    pub member: MemberId,
}

/// A raw relation: an ordered member list and tags.
#[derive(Debug)]
pub struct RawRelation {
    pub id: i64,
    pub refs: Vec<RelationMember>,
    pub tags: Vec<(String, String)>,
}

/// One record of the ingestion feed.
#[derive(Debug)]
pub enum OsmRecord {
    Node(RawNode),
    Way(RawWay),
    Relation(RawRelation),
}

/// The coordinate stored in a raw node.
pub open spec fn node_coord(n: RawNode) -> Coordinate {
    Coordinate { decimicro_lat: n.decimicro_lat, decimicro_lon: n.decimicro_lon }
}

// ---------------------------------------------------------------------------
// The record store
// ---------------------------------------------------------------------------

/// All ingested records, keyed by identifier, one keyspace per record kind.
#[derive(Debug)]
pub struct OsmData {
    pub nodes: HashMap<i64, RawNode>,
    pub ways: HashMap<i64, RawWay>,
    pub relations: HashMap<i64, RawRelation>,
}

impl Default for OsmData {
    /// The empty store.
    fn default() -> (r: OsmData)
        ensures
            r.nodes@ == Map::<i64, RawNode>::empty(),
            r.ways@ == Map::<i64, RawWay>::empty(),
            r.relations@ == Map::<i64, RawRelation>::empty(),
    {
        OsmData { nodes: HashMap::new(), ways: HashMap::new(), relations: HashMap::new() }
    }
}

// ---------------------------------------------------------------------------
// The feed fold: what a record sequence builds, kind by kind
// ---------------------------------------------------------------------------

/// The node map that ingesting `records` in order produces: insertion is
/// overwrite-by-identifier, so a later record with the same identifier wins.
pub open spec fn feed_nodes(records: Seq<OsmRecord>) -> Map<i64, RawNode>
    decreases records.len(),
{
    if records.len() == 0 {
        Map::empty()
    } else {
        let m = feed_nodes(records.drop_last());
        match records.last() {
            OsmRecord::Node(n) => m.insert(n.id, n),
            _ => m,
        }
    }
}

/// The way map that ingesting `records` in order produces.
pub open spec fn feed_ways(records: Seq<OsmRecord>) -> Map<i64, RawWay>
    decreases records.len(),
{
    if records.len() == 0 {
        Map::empty()
    } else {
        let m = feed_ways(records.drop_last());
        match records.last() {
            OsmRecord::Way(w) => m.insert(w.id, w),
            _ => m,
        }
    }
}

/// The relation map that ingesting `records` in order produces.
pub open spec fn feed_relations(records: Seq<OsmRecord>) -> Map<i64, RawRelation>
    decreases records.len(),
{
    if records.len() == 0 {
        Map::empty()
    } else {
        let m = feed_relations(records.drop_last());
        match records.last() {
            OsmRecord::Relation(r) => m.insert(r.id, r),
            _ => m,
        }
    }
}

impl OsmData {
    /// Inserts (or overwrites) a node under its identifier.
    pub fn add_node(&mut self, node: RawNode)
        ensures
            final(self).nodes@ == old(self).nodes@.insert(node.id, node),
            final(self).ways == old(self).ways,
            final(self).relations == old(self).relations,
    {
        self.nodes.insert(node.id, node);
    }

    /// Inserts (or overwrites) a way under its identifier.
    pub fn add_way(&mut self, way: RawWay)
        ensures
            final(self).ways@ == old(self).ways@.insert(way.id, way),
            final(self).nodes == old(self).nodes,
            final(self).relations == old(self).relations,
    {
        self.ways.insert(way.id, way);
    }

    /// Inserts (or overwrites) a relation under its identifier.
    pub fn add_relation(&mut self, relation: RawRelation)
        ensures
            final(self).relations@ == old(self).relations@.insert(relation.id, relation),
            final(self).nodes == old(self).nodes,
            final(self).ways == old(self).ways,
    {
        self.relations.insert(relation.id, relation);
    }

    /// Looks a node up by identifier; absence is an answer, not an error.
    pub fn get_node_by_id(&self, id: i64) -> (r: Option<&RawNode>)
        ensures
            match r {
                Some(n) => self.nodes@.contains_key(id) && *n == self.nodes@[id],
                None => !self.nodes@.contains_key(id),
            },
    {
        self.nodes.get(&id)
    }

    /// Looks a way up by identifier.
    pub fn get_way_by_id(&self, id: i64) -> (r: Option<&RawWay>)
        ensures
            match r {
                Some(w) => self.ways@.contains_key(id) && *w == self.ways@[id],
                None => !self.ways@.contains_key(id),
            },
    {
        self.ways.get(&id)
    }

    /// Looks a relation up by identifier.
    pub fn get_relation_by_id(&self, id: i64) -> (r: Option<&RawRelation>)
        ensures
            match r {
                Some(rel) => self.relations@.contains_key(id) && *rel == self.relations@[id],
                None => !self.relations@.contains_key(id),
            },
    {
        self.relations.get(&id)
    }

    /// Drains a record feed into a store, classifying each record by kind.
    /// Ingestion is a single batch: the store is read-only afterwards.
    pub fn build_from_feed(records: Vec<OsmRecord>) -> (r: OsmData)
        ensures
            r.nodes@ == feed_nodes(records@),
            r.ways@ == feed_ways(records@),
            r.relations@ == feed_relations(records@),
    {
        let ghost all = records@;
        let mut rest = records;
        let mut data = OsmData::default();
        let ghost mut i: int = 0;
        while rest.len() > 0
            invariant
                0 <= i,
                i + rest@.len() == all.len(),
                rest@ == all.skip(i),
                data.nodes@ == feed_nodes(all.take(i)),
                data.ways@ == feed_ways(all.take(i)),
                data.relations@ == feed_relations(all.take(i)),
            decreases rest@.len(),
    {
            proof {
                assert(all.skip(i)[0] == all[i]);
                assert(all.take(i + 1).drop_last() =~= all.take(i));
                assert(all.take(i + 1).last() == all[i]);
            }
            let rec = rest.remove(0);
            match rec {
                OsmRecord::Node(n) => data.add_node(n),
                OsmRecord::Way(w) => data.add_way(w),
                OsmRecord::Relation(r) => data.add_relation(r),
            }
            proof {
                assert(rest@ =~= all.skip(i + 1));
                i = i + 1;
            }
        }
        proof {
            assert(all.take(i) =~= all);
        }
        data
    }

    /// Derives a node's coordinate from its fixed-point fields. The fields
    /// always denote a representable coordinate, so this never fails; the
    /// fallible shape is kept for callers that treat decoding as fallible.
    pub fn get_coordinate_by_node(&self, node: &RawNode) -> (r: Result<Coordinate, String>)
        ensures
            r == Ok::<Coordinate, String>(node_coord(*node)),
    {
        Ok(Coordinate { decimicro_lat: node.decimicro_lat, decimicro_lon: node.decimicro_lon })
    }

    /// The coordinate of the stored node with this identifier, if any.
    pub fn get_coordinate_by_node_id(&self, id: i64) -> (r: Option<Coordinate>)
        ensures
            match r {
                Some(c) => self.nodes@.contains_key(id) && c == node_coord(self.nodes@[id]),
                None => !self.nodes@.contains_key(id),
            },
    {
        match self.get_node_by_id(id) {
            Some(node) => match self.get_coordinate_by_node(node) {
                Ok(c) => Some(c),
                Err(_) => None,
            },
            None => None,
        }
    }

    /// The coordinates of a way's stored nodes, in way order; references that
    /// resolve to no stored node are skipped, since extracts are often
    /// clipped to a region.
    pub fn get_coordinates_by_way(&self, way: &RawWay) -> (r: Vec<Coordinate>)
        ensures
            r@ == way_coords(self.nodes@, way.nodes@),
    {
        let mut out: Vec<Coordinate> = Vec::new();
        let mut i: usize = 0;
        proof {
            assert(way.nodes@.take(0) =~= Seq::<i64>::empty());
        }
        while i < way.nodes.len()
            invariant
                i <= way.nodes@.len(),
                out@ == way_coords(self.nodes@, way.nodes@.take(i as int)),
            decreases way.nodes@.len() - i,
        {
            if let Some(c) = self.get_coordinate_by_node_id(way.nodes[i]) {
                out.push(c);
            }
            proof {
                assert(way.nodes@.take(i as int + 1).drop_last() =~= way.nodes@.take(i as int));
                assert(way.nodes@.take(i as int + 1).last() == way.nodes@[i as int]);
                assert(out@ =~= way_coords(self.nodes@, way.nodes@.take(i as int + 1)));
            }
            i = i + 1;
        }
        proof {
            assert(way.nodes@.take(way.nodes@.len() as int) =~= way.nodes@);
        }
        out
    }

    /// The coordinates of the stored way with this identifier, if any.
    pub fn get_coordinates_by_way_id(&self, id: i64) -> (r: Option<Vec<Coordinate>>)
        ensures
            match r {
                Some(v) => self.ways@.contains_key(id) && v@ == way_coords(
                    self.nodes@,
                    self.ways@[id].nodes@,
                ),
                None => !self.ways@.contains_key(id),
            },
    {
        match self.get_way_by_id(id) {
            Some(way) => Some(self.get_coordinates_by_way(way)),
            None => None,
        }
    }

    /// Resolves a relation's members into one flattened coordinate sequence,
    /// mirroring `rel_coords`. `fuel` bounds the relation-in-relation
    /// nesting depth; a member naming the relation being resolved is skipped.
    fn coords_rec(&self, id: i64, only_outer: bool, fuel: usize) -> (r: Option<Vec<Coordinate>>)
        ensures
            coords_match(r, rel_coords(*self, id, only_outer, fuel as nat)),
        decreases fuel,
    {
        let rel = match self.get_relation_by_id(id) {
            Some(rel) => rel,
            None => {
                return None;
            },
        };
        let ghost ms = self.relations@[id].refs@;
        let mut out: Vec<Coordinate> = Vec::new();
        let mut i: usize = 0;
        proof {
            assert(ms.take(0) =~= Seq::<RelationMember>::empty());
        }
        while i < rel.refs.len()
            invariant
                self.relations@.contains_key(id),
                *rel == self.relations@[id],
                ms == self.relations@[id].refs@,
                i <= ms.len(),
                out@ == members_coords(*self, id, ms.take(i as int), only_outer, fuel as nat),
            decreases ms.len() - i,
        {
            let m = &rel.refs[i];
            let selected = if only_outer {
                role_is_outer(&m.role)
            } else {
                true
            };
            if selected {
                match m.member {
                    MemberId::Node(nid) => {
                        if let Some(c) = self.get_coordinate_by_node_id(nid) {
                            out.push(c);
                        }
                    },
                    MemberId::Way(wid) => {
                        if let Some(mut cs) = self.get_coordinates_by_way_id(wid) {
                            out.append(&mut cs);
                        }
                    },
                    MemberId::Relation(rid) => {
                        if rid != id && fuel > 0 {
                            if let Some(mut cs) = self.coords_rec(rid, only_outer, fuel - 1) {
                                out.append(&mut cs);
                            }
                        }
                    },
                }
            }
            proof {
                let pre = ms.take(i as int);
                let cur = ms.take(i as int + 1);
                assert(cur.drop_last() =~= pre);
                assert(cur.last() == ms[i as int]);
                assert(members_coords(*self, id, cur, only_outer, fuel as nat)
                    == members_coords(*self, id, pre, only_outer, fuel as nat) + member_coords(
                    *self,
                    id,
                    ms[i as int],
                    only_outer,
                    fuel as nat,
                ));
                assert(out@ =~= members_coords(*self, id, cur, only_outer, fuel as nat));
            }
            i = i + 1;
        }
        proof {
            assert(ms.take(ms.len() as int) =~= ms);
        }
        Some(out)
    }

    /// The flattened coordinates of the members of this relation whose role,
    /// case-folded, reads "outer": the exterior ring of a multipolygon.
    /// Absence means the relation is not stored.
    pub fn get_outer_coordinates_by_relation_id(&self, id: i64) -> (r: Option<Vec<Coordinate>>)
        ensures
            coords_match(r, rel_coords(*self, id, true, self.relations@.len())),
    {
        let fuel = self.relations.len();
        self.coords_rec(id, true, fuel)
    }

    /// Like `get_outer_coordinates_by_relation_id`, but an empty resolution
    /// yields absence, so callers can tell "no data" from "no outer members".
    pub fn get_outer_coordinates_by_relation(&self, relation: &RawRelation) -> (r: Option<
        Vec<Coordinate>,
    >)
        ensures
            match rel_coords(*self, relation.id, true, self.relations@.len()) {
                Some(sq) => if sq.len() == 0 {
                    r is None
                } else {
                    r is Some && r.unwrap()@ == sq
                },
                None => r is None,
            },
    {
        match self.get_outer_coordinates_by_relation_id(relation.id) {
            Some(v) => if v.len() == 0 {
                None
            } else {
                Some(v)
            },
            None => None,
        }
    }

    /// The flattened coordinates of all members of this relation, regardless
    /// of role; used for full (non-multipolygon) relations.
    pub fn get_coordinates_by_relation_id(&self, id: i64) -> (r: Option<Vec<Coordinate>>)
        ensures
            coords_match(r, rel_coords(*self, id, false, self.relations@.len())),
    {
        let fuel = self.relations.len();
        self.coords_rec(id, false, fuel)
    }

    /// `get_coordinates_by_relation_id`, starting from the relation value.
    pub fn get_coordinates_by_relation(&self, relation: &RawRelation) -> (r: Option<
        Vec<Coordinate>,
    >)
        ensures
            coords_match(r, rel_coords(*self, relation.id, false, self.relations@.len())),
    {
        self.get_coordinates_by_relation_id(relation.id)
    }

    /// Describes each member of this relation whose role is not "outer":
    /// inner rings and sub-features, one tagged record per member, mirroring
    /// `not_outer_details`. Absence means the relation is not stored.
    pub fn get_not_outer_coordinates_by_relation_id(&self, id: i64) -> (r: Option<
        Vec<MemberDetail>,
    >)
        ensures
            match r {
                Some(v) => self.relations@.contains_key(id) && details_view(v@)
                    == not_outer_details(*self, id, self.relations@[id].refs@),
                None => !self.relations@.contains_key(id),
            },
    {
        let rel = match self.get_relation_by_id(id) {
            Some(rel) => rel,
            None => {
                return None;
            },
        };
        let ghost ms = self.relations@[id].refs@;
        let mut out: Vec<MemberDetail> = Vec::new();
        let mut i: usize = 0;
        proof {
            assert(ms.take(0) =~= Seq::<RelationMember>::empty());
            assert(details_view(out@) =~= not_outer_details(*self, id, ms.take(0)));
        }
        while i < rel.refs.len()
            invariant
                self.relations@.contains_key(id),
                *rel == self.relations@[id],
                ms == self.relations@[id].refs@,
                i <= ms.len(),
                details_view(out@) == not_outer_details(*self, id, ms.take(i as int)),
            decreases ms.len() - i,
    {
            let m = &rel.refs[i];
            if !role_is_outer(&m.role) {
                match m.member {
                    MemberId::Node(nid) => {
                        if let Some(n) = self.get_node_by_id(nid) {
                            let c = Coordinate {
                                decimicro_lat: n.decimicro_lat,
                                decimicro_lon: n.decimicro_lon,
                            };
                            out.push(MemberDetail::Node {
                                id: nid,
                                tags: copy_tags(&n.tags),
                                coordinate: c,
                            });
                        }
                    },
                    MemberId::Way(wid) => {
                        if let Some(w) = self.get_way_by_id(wid) {
                            let cs = self.get_coordinates_by_way(w);
                            out.push(MemberDetail::Way {
                                id: wid,
                                tags: copy_tags(&w.tags),
                                coordinates: cs,
                            });
                        }
                    },
                    MemberId::Relation(rid) => {
                        if rid != id {
                            if let Some(nested) = self.get_relation_by_id(rid) {
                                let cs = match self.get_outer_coordinates_by_relation_id(rid) {
                                    Some(cs) => cs,
                                    None => {
                                        proof {
                                            assert(false);
                                        }
                                        Vec::new()
                                    },
                                };
                                out.push(MemberDetail::Relation {
                                    id: rid,
                                    role: m.role.clone(),
                                    tags: copy_tags(&nested.tags),
                                    coordinates: cs,
                                });
                            }
                        }
                    },
                }
            }
            proof {
                assert(ms.take(i as int + 1).drop_last() =~= ms.take(i as int));
                assert(ms.take(i as int + 1).last() == ms[i as int]);
                assert(details_view(out@) =~= not_outer_details(*self, id, ms.take(i as int + 1)));
            }
            i = i + 1;
        }
        proof {
            assert(ms.take(ms.len() as int) =~= ms);
        }
        Some(out)
    }
}

// ---------------------------------------------------------------------------
// Relation geometry, as specification
// ---------------------------------------------------------------------------

/// The coordinates of a node-identifier sequence: each identifier stored in
/// `nodes` yields its coordinate, in order; the others are skipped.
pub open spec fn way_coords(nodes: Map<i64, RawNode>, ids: Seq<i64>) -> Seq<Coordinate>
    decreases ids.len(),
{
    if ids.len() == 0 {
        Seq::empty()
    } else {
        way_coords(nodes, ids.drop_last()) + (if nodes.contains_key(ids.last()) {
            seq![node_coord(nodes[ids.last()])]
        } else {
            Seq::empty()
        })
    }
}

/// Relates an executable resolution result to its specification: present
/// exactly together, with the same coordinates.
pub open spec fn coords_match(r: Option<Vec<Coordinate>>, s: Option<Seq<Coordinate>>) -> bool {
    match r {
        Some(v) => s is Some && v@ == s.unwrap(),
        None => s is None,
    }
}

/// What resolving the relation stored under `id` yields: absence if it is
/// not stored, else the flattened contributions of its members in order.
/// With `only_outer`, members whose role does not fold to "outer" are
/// filtered out. `fuel` bounds the nesting depth of relations in relations,
/// so that resolution terminates even on cyclic membership.
pub open spec fn rel_coords(d: OsmData, id: i64, only_outer: bool, fuel: nat) -> Option<
    Seq<Coordinate>,
>
    decreases fuel, 1nat, 0nat,
{
    if !d.relations@.contains_key(id) {
        None
    } else {
        Some(members_coords(d, id, d.relations@[id].refs@, only_outer, fuel))
    }
}

/// The concatenated contributions of the members `ms` of relation `cur`.
pub open spec fn members_coords(
    d: OsmData,
    cur: i64,
    ms: Seq<RelationMember>,
    only_outer: bool,
    fuel: nat,
) -> Seq<Coordinate>
    decreases fuel, 0nat, ms.len() + 1,
{
    if ms.len() == 0 {
        Seq::empty()
    } else {
        members_coords(d, cur, ms.drop_last(), only_outer, fuel) + member_coords(
            d,
            cur,
            ms.last(),
            only_outer,
            fuel,
        )
    }
}

/// One member's contribution: a stored node member yields its coordinate, a
/// stored way member its way coordinates, a relation member its own
/// resolution with one unit of fuel less — except that a member naming the
/// relation currently being resolved yields nothing, the guard against
/// direct self-reference. Unstored references yield nothing.
pub open spec fn member_coords(
    d: OsmData,
    cur: i64,
    m: RelationMember,
    only_outer: bool,
    fuel: nat,
) -> Seq<Coordinate>
    decreases fuel, 0nat, 0nat,
{
    if only_outer && !is_outer_role(m.role@) {
        Seq::empty()
    } else {
        match m.member {
            MemberId::Node(nid) => if d.nodes@.contains_key(nid) {
                seq![node_coord(d.nodes@[nid])]
            } else {
                Seq::empty()
            },
            MemberId::Way(wid) => if d.ways@.contains_key(wid) {
                way_coords(d.nodes@, d.ways@[wid].nodes@)
            } else {
                Seq::empty()
            },
            MemberId::Relation(rid) => if rid == cur || fuel == 0 {
                Seq::empty()
            } else {
                match rel_coords(d, rid, only_outer, (fuel - 1) as nat) {
                    Some(s) => s,
                    None => Seq::empty(),
                }
            },
        }
    }
}

// ---------------------------------------------------------------------------
// Non-outer member detail
// ---------------------------------------------------------------------------

/// Describes one non-outer member of a relation, by member kind: inner
/// rings and sub-features, kept distinct from the exterior boundary.
#[derive(Debug)]
pub enum MemberDetail {
    Node { id: i64, tags: Vec<(String, String)>, coordinate: Coordinate },
    Way { id: i64, tags: Vec<(String, String)>, coordinates: Vec<Coordinate> },
    Relation { id: i64, role: String, tags: Vec<(String, String)>, coordinates: Vec<Coordinate> },
}

/// The mathematical shape of a `MemberDetail`.
pub enum MemberDetailView {
    Node { id: i64, tags: Seq<(Seq<char>, Seq<char>)>, coordinate: Coordinate },
    Way { id: i64, tags: Seq<(Seq<char>, Seq<char>)>, coordinates: Seq<Coordinate> },
    Relation {
        id: i64,
        role: Seq<char>,
        tags: Seq<(Seq<char>, Seq<char>)>,
        coordinates: Seq<Coordinate>,
    },
}

/// A tag list as a sequence of character-sequence pairs.
pub open spec fn tags_view(tags: Seq<(String, String)>) -> Seq<(Seq<char>, Seq<char>)> {
    tags.map_values(|p: (String, String)| (p.0@, p.1@))
}

impl View for MemberDetail {
    type V = MemberDetailView;

    open spec fn view(&self) -> MemberDetailView {
        match self {
            MemberDetail::Node { id, tags, coordinate } => MemberDetailView::Node {
                id: *id,
                tags: tags_view(tags@),
                coordinate: *coordinate,
            },
            MemberDetail::Way { id, tags, coordinates } => MemberDetailView::Way {
                id: *id,
                tags: tags_view(tags@),
                coordinates: coordinates@,
            },
            MemberDetail::Relation { id, role, tags, coordinates } => MemberDetailView::Relation {
                id: *id,
                role: role@,
                tags: tags_view(tags@),
                coordinates: coordinates@,
            },
        }
    }
}

/// The views of a detail list.
pub open spec fn details_view(v: Seq<MemberDetail>) -> Seq<MemberDetailView> {
    v.map_values(|x: MemberDetail| x@)
}

/// What one member contributes to the non-outer detail of relation `cur`:
/// nothing for outer-role members, unstored references, and the direct
/// self-reference; else one record of its kind. A nested relation is
/// described by its own outer-ring resolution.
pub open spec fn member_detail(d: OsmData, cur: i64, m: RelationMember) -> Option<
    MemberDetailView,
> {
    if is_outer_role(m.role@) {
        None
    } else {
        match m.member {
            MemberId::Node(nid) => if d.nodes@.contains_key(nid) {
                Some(
                    MemberDetailView::Node {
                        id: nid,
                        tags: tags_view(d.nodes@[nid].tags@),
                        coordinate: node_coord(d.nodes@[nid]),
                    },
                )
            } else {
                None
            },
            MemberId::Way(wid) => if d.ways@.contains_key(wid) {
                Some(
                    MemberDetailView::Way {
                        id: wid,
                        tags: tags_view(d.ways@[wid].tags@),
                        coordinates: way_coords(d.nodes@, d.ways@[wid].nodes@),
                    },
                )
            } else {
                None
            },
            MemberId::Relation(rid) => if rid == cur || !d.relations@.contains_key(rid) {
                None
            } else {
                Some(
                    MemberDetailView::Relation {
                        id: rid,
                        role: m.role@,
                        tags: tags_view(d.relations@[rid].tags@),
                        coordinates: rel_coords(d, rid, true, d.relations@.len()).unwrap(),
                    },
                )
            },
        }
    }
}

/// The non-outer detail records of the members `ms` of relation `cur`.
pub open spec fn not_outer_details(d: OsmData, cur: i64, ms: Seq<RelationMember>) -> Seq<
    MemberDetailView,
>
    decreases ms.len(),
{
    if ms.len() == 0 {
        Seq::empty()
    } else {
        not_outer_details(d, cur, ms.drop_last()) + (match member_detail(d, cur, ms.last()) {
            Some(x) => seq![x],
            None => Seq::empty(),
        })
    }
}

// ---------------------------------------------------------------------------
// Laws of the self-reference guard
// ---------------------------------------------------------------------------

/// A member that names the relation currently being resolved contributes no
/// coordinates, whatever the store, role filter, or fuel.
pub proof fn lemma_self_member_contributes_nothing(
    d: OsmData,
    id: i64,
    m: RelationMember,
    only_outer: bool,
    fuel: nat,
)
    requires
        m.member == MemberId::Relation(id),
    ensures
        member_coords(d, id, m, only_outer, fuel) == Seq::<Coordinate>::empty(),
{
}

/// A relation all of whose members name the relation itself resolves to the
/// empty coordinate sequence — never to absence, and never by recursing into
/// itself.
pub proof fn lemma_self_reference_resolves_empty(d: OsmData, id: i64, only_outer: bool, fuel: nat)
    requires
        d.relations@.contains_key(id),
        forall|i: int|
            0 <= i < d.relations@[id].refs@.len() ==> (#[trigger] d.relations@[id].refs@[i]).member
                == MemberId::Relation(id),
    ensures
        rel_coords(d, id, only_outer, fuel) == Some(Seq::<Coordinate>::empty()),
{
    lemma_members_all_self_empty(d, id, d.relations@[id].refs@, only_outer, fuel);
}

proof fn lemma_members_all_self_empty(
    d: OsmData,
    id: i64,
    ms: Seq<RelationMember>,
    only_outer: bool,
    fuel: nat,
)
    requires
        forall|i: int| 0 <= i < ms.len() ==> (#[trigger] ms[i]).member == MemberId::Relation(id),
    ensures
        members_coords(d, id, ms, only_outer, fuel) == Seq::<Coordinate>::empty(),
    decreases ms.len(),
{
    if ms.len() == 0 {
    } else {
        let rest = ms.drop_last();
        assert forall|i: int| 0 <= i < rest.len() implies (#[trigger] rest[i]).member
            == MemberId::Relation(id) by {
            assert(rest[i] == ms[i]);
        }
        lemma_members_all_self_empty(d, id, rest, only_outer, fuel);
        assert(ms[ms.len() - 1].member == MemberId::Relation(id));
        assert(member_coords(d, id, ms.last(), only_outer, fuel) == Seq::<Coordinate>::empty());
        assert(members_coords(d, id, ms, only_outer, fuel) =~= Seq::<Coordinate>::empty());
    }
}

} // verus!
