//! Power networks: the groups of generators and consumers that power wires
//! join together.
use crate::structure::{distance_spec, Position, StructureId};
use vstd::prelude::*;

verus! {

/// A power wire strung between the structures on two tiles.
#[derive(Clone, Copy, PartialEq, Eq, Structural, Debug, Hash)]
pub struct PowerWire(pub Position, pub Position);

/// What the power grid reads of a structure: its handle, its tile, whether
/// it produces (`source`) or consumes (`sink`) electricity, and how far its
/// wires reach.
#[derive(Clone, Copy, PartialEq, Eq, Structural, Debug)]
pub struct PowerNode {
    pub id: StructureId,
    pub position: Position,
    pub source: bool,
    pub sink: bool,
    pub wire_reach: u32,
}

/// How far the wires of most structures reach, in tiles.
pub const DEFAULT_WIRE_REACH: u32 = 3;

/// How far the wires of an electric pole reach, in tiles.
pub const POLE_WIRE_REACH: u32 = 5;

/// A group of structures joined by power wires, with the generators and
/// consumers in it.
pub struct PowerNetwork {
    pub wires: Vec<(StructureId, StructureId)>,
    pub sources: Vec<StructureId>,
    pub sinks: Vec<StructureId>,
}

/// Whether wire `w` has its two ends on the tiles `a` and `b`.
pub open spec fn joined(w: PowerWire, a: Position, b: Position) -> bool {
    (w.0 == a && w.1 == b) || (w.1 == a && w.0 == b)
}

/// Whether some wire of `wires` runs between the tiles `a` and `b`.
pub open spec fn wired(wires: Seq<PowerWire>, a: Position, b: Position) -> bool {
    exists|k: int| 0 <= k < wires.len() && #[trigger] joined(wires[k], a, b)
}

/// Whether consecutive tiles of `path` are joined by wires of `wires`.
pub open spec fn is_wire_path(wires: Seq<PowerWire>, path: Seq<Position>) -> bool {
    &&& path.len() >= 1
    &&& forall|i: int, j: int|
        0 <= i && j == i + 1 && j < path.len() ==> #[trigger] wired(wires, path[i], path[j])
}

/// Whether the tiles `a` and `b` are joined by a chain of wires.
pub open spec fn linked(wires: Seq<PowerWire>, a: Position, b: Position) -> bool {
    exists|path: Seq<Position>|
        #[trigger] is_wire_path(wires, path) && path[0] == a && path[path.len() - 1] == b
}

/// Whether `id` belongs to a structure of `nodes` that produces
/// (`want_source`) or consumes electricity and stands on a tile linked by
/// wires to `origin`.
pub open spec fn member_of(nodes: Seq<PowerNode>, wires: Seq<PowerWire>, origin: Position, id: StructureId, want_source: bool) -> bool {
    exists|k: int|
        0 <= k < nodes.len() && (#[trigger] nodes[k]).id == id && (if want_source {
            nodes[k].source
        } else {
            nodes[k].sink
        }) && linked(wires, origin, nodes[k].position)
}

/// Whether `id` belongs to a structure of `nodes` standing on tile `pos`.
pub open spec fn stands_at(nodes: Seq<PowerNode>, id: StructureId, pos: Position) -> bool {
    exists|k: int| 0 <= k < nodes.len() && (#[trigger] nodes[k]).id == id && nodes[k].position == pos
}

/// Whether `net` is a network grown from the structure `nodes[s]`: it has
/// a generator and a consumer, starts with that structure, and holds only
/// structures linked by wires to it.
pub open spec fn grown_from(nodes: Seq<PowerNode>, wires: Seq<PowerWire>, s: int, net: PowerNetwork) -> bool {
    let origin = nodes[s].position;
    &&& 0 <= s < nodes.len()
    &&& nodes[s].source || nodes[s].sink
    &&& net.sources@.len() > 0
    &&& net.sinks@.len() > 0
    &&& nodes[s].source ==> net.sources@[0] == nodes[s].id
    &&& nodes[s].sink ==> net.sinks@[0] == nodes[s].id
    &&& forall|j: int| 0 <= j < net.sources@.len() ==> member_of(nodes, wires, origin, #[trigger] net.sources@[j], true)
    &&& forall|j: int| 0 <= j < net.sinks@.len() ==> member_of(nodes, wires, origin, #[trigger] net.sinks@[j], false)
    &&& forall|j: int| 0 <= j < net.wires@.len() ==> stands_at(nodes, (#[trigger] net.wires@[j]).0, origin)
        && stands_at(nodes, net.wires@[j].1, origin)
}

/// Whether `net` is a network grown from one of the structures of `nodes`.
pub open spec fn is_network_of(nodes: Seq<PowerNode>, wires: Seq<PowerWire>, net: PowerNetwork) -> bool {
    exists|s: int| grown_from(nodes, wires, s, net)
}

/// The number of entries of `s` that are `false`.
pub open spec fn count_false(s: Seq<bool>) -> nat
    decreases s.len(),
{
    if s.len() == 0 {
        0
    } else {
        count_false(s.drop_last()) + if s.last() { 0nat } else { 1nat }
    }
}

/// Setting an entry to `true` lowers the count of `false` entries by one if
/// it was `false`, and leaves it otherwise.
pub proof fn lemma_count_false_set(s: Seq<bool>, i: int)
    requires
        0 <= i < s.len(),
    ensures
        !s[i] ==> count_false(s.update(i, true)) + 1 == count_false(s),
        s[i] ==> count_false(s.update(i, true)) == count_false(s),
    decreases s.len(),
{
    let t = s.update(i, true);
    if i == s.len() - 1 {
        assert(t.drop_last() =~= s.drop_last());
    } else {
        assert(t.drop_last() =~= s.drop_last().update(i, true));
        lemma_count_false_set(s.drop_last(), i);
    }
}

proof fn lemma_linked_refl(wires: Seq<PowerWire>, a: Position)
    ensures
        linked(wires, a, a),
{
    let path = seq![a];
    assert(is_wire_path(wires, path));
    assert(path[0] == a && path[path.len() - 1] == a);
}

proof fn lemma_linked_step(wires: Seq<PowerWire>, a: Position, b: Position, k: int, c: Position)
    requires
        linked(wires, a, b),
        0 <= k < wires.len(),
        joined(wires[k], b, c),
    ensures
        linked(wires, a, c),
{
    let path = choose|path: Seq<Position>|
        #[trigger] is_wire_path(wires, path) && path[0] == a && path[path.len() - 1] == b;
    let p2 = path.push(c);
    assert(wired(wires, b, c));
    assert forall|i: int, j: int| 0 <= i && j == i + 1 && j < p2.len() implies #[trigger] wired(wires, p2[i], p2[j]) by {
        if j < path.len() {
            assert(p2[i] == path[i] && p2[j] == path[j]);
            assert(wired(wires, path[i], path[j]));
        } else {
            assert(p2[i] == b && p2[j] == c);
        }
    }
    assert(is_wire_path(wires, p2));
    assert(p2[0] == a && p2[p2.len() - 1] == c);
}

/// Whether `nodes[i]` is the first structure of `nodes` on tile `pos`.
pub open spec fn first_node_on(nodes: Seq<PowerNode>, i: int, pos: Position) -> bool {
    &&& 0 <= i < nodes.len()
    &&& nodes[i].position == pos
    &&& forall|j: int| 0 <= j < i ==> nodes[j].position != pos
}

/// Whether one of `a` and `b` produces electricity that the other
/// consumes.
pub open spec fn complementary(a: PowerNode, b: PowerNode) -> bool {
    (a.source && b.sink) || (a.sink && b.source)
}

/// Whether no wire of `wires` has both its ends on tile `pos`.
pub open spec fn no_self_wire(wires: Seq<PowerWire>, pos: Position) -> bool {
    forall|k: int| 0 <= k < wires.len() ==> !(#[trigger] wires[k].0 == pos && wires[k].1 == pos)
}

/// Whether wire `k` joins the tile of `nodes[s]` to another tile whose
/// first structure `nodes[i]` complements it.
pub open spec fn partner_at(nodes: Seq<PowerNode>, wires: Seq<PowerWire>, s: int, k: int, i: int) -> bool {
    &&& 0 <= k < wires.len()
    &&& first_node_on(nodes, i, nodes[i].position)
    &&& nodes[i].position != nodes[s].position
    &&& joined(wires[k], nodes[s].position, nodes[i].position)
    &&& complementary(nodes[s], nodes[i])
}

/// Whether `nodes[s]` makes a network as soon as no wire is taken: it
/// both produces and consumes electricity, or a single wire joins it to a
/// structure that complements it (and no wire loops back onto its tile).
pub open spec fn starts_network(nodes: Seq<PowerNode>, wires: Seq<PowerWire>, s: int) -> bool {
    ||| complementary(nodes[s], nodes[s])
    ||| no_self_wire(wires, nodes[s].position) && exists|k: int, i: int| #[trigger] partner_at(nodes, wires, s, k, i)
}

/// Whether no structure of `nodes` before index `s` produces or consumes
/// electricity.
pub open spec fn no_power_before(nodes: Seq<PowerNode>, s: int) -> bool {
    forall|j: int| 0 <= j < s ==> !(#[trigger] nodes[j].source || nodes[j].sink)
}

/// Whether `nodes[s]` is the first structure of `nodes` that produces or
/// consumes electricity.
pub open spec fn first_power(nodes: Seq<PowerNode>, s: int) -> bool {
    &&& 0 <= s < nodes.len()
    &&& nodes[s].source || nodes[s].sink
    &&& no_power_before(nodes, s)
}

/// The first structure of `nodes`, from index `i` on, standing on tile
/// `pos`.
pub open spec fn first_node_from(nodes: Seq<PowerNode>, pos: Position, i: int) -> Option<int>
    decreases nodes.len() - i,
{
    if i < 0 || i >= nodes.len() {
        None
    } else if nodes[i].position == pos {
        Some(i)
    } else {
        first_node_from(nodes, pos, i + 1)
    }
}

/// The generators and consumers `sources` and `sinks` after filing the
/// first structure on tile `pos` under its kinds.
pub open spec fn collect_spec(nodes: Seq<PowerNode>, pos: Position, sources: Seq<StructureId>, sinks: Seq<StructureId>) -> (
    Seq<StructureId>,
    Seq<StructureId>,
) {
    match first_node_from(nodes, pos, 0) {
        Some(i) => (
            if nodes[i].source { sources.push(nodes[i].id) } else { sources },
            if nodes[i].sink { sinks.push(nodes[i].id) } else { sinks },
        ),
        None => (sources, sinks),
    }
}

/// The handle of the first structure on tile `pos`, if any.
pub open spec fn node_id_at(nodes: Seq<PowerNode>, pos: Position) -> Option<StructureId> {
    match first_node_from(nodes, pos, 0) {
        Some(i) => Some(nodes[i].id),
        None => None,
    }
}

/// The state of growing a network: which wires are taken, the tiles to
/// grow from next, the generators and consumers met, and the wire that
/// loops back onto the starting tile, if one was met.
pub type SeedState = (Seq<bool>, Seq<Position>, Seq<StructureId>, Seq<StructureId>, Option<(StructureId, StructureId)>);

/// The first pass of growing from tile `origin`, from wire `k` on: each
/// wire not yet taken with an end on `origin` is taken, its other end is
/// to be grown from, and the structures at its ends (the far end first)
/// are filed; the pass stops after a wire with both ends on `origin`
/// whose ends both hold a structure.
pub open spec fn seed_pass(nodes: Seq<PowerNode>, wires: Seq<PowerWire>, origin: Position, k: int, st: SeedState) -> SeedState
    decreases wires.len() - k,
{
    if k < 0 || k >= wires.len() || st.4 is Some || k >= st.0.len() {
        st
    } else if st.0[k] {
        seed_pass(nodes, wires, origin, k + 1, st)
    } else {
        let w = wires[k];
        let a: SeedState = if w.0 == origin {
            let c = collect_spec(nodes, w.1, st.2, st.3);
            (st.0.update(k, true), st.1.push(w.1), c.0, c.1, st.4)
        } else {
            st
        };
        let b: SeedState = if w.1 == origin {
            let c = collect_spec(nodes, w.0, a.2, a.3);
            (a.0.update(k, true), a.1.push(w.0), c.0, c.1, a.4)
        } else {
            a
        };
        let lr = if w.0 == origin && w.1 == origin && node_id_at(nodes, w.1) is Some && node_id_at(nodes, w.0) is Some {
            Some((node_id_at(nodes, w.1)->0, node_id_at(nodes, w.0)->0))
        } else {
            st.4
        };
        seed_pass(nodes, wires, origin, k + 1, (b.0, b.1, b.2, b.3, lr))
    }
}

/// The state of one round of growing: which wires are taken, the tiles
/// to grow from in the next round, and the generators and consumers met.
pub type RoundState = (Seq<bool>, Seq<Position>, Seq<StructureId>, Seq<StructureId>);

/// Growing from tile `c`, from wire `k` on: each wire not yet taken with an
/// end on `c` is taken and its other end is to be grown from next; the
/// structure filed is the one at the wire's second end.
pub open spec fn scan(nodes: Seq<PowerNode>, wires: Seq<PowerWire>, c: Position, k: int, st: RoundState) -> RoundState
    decreases wires.len() - k,
{
    if k < 0 || k >= wires.len() || k >= st.0.len() {
        st
    } else if st.0[k] {
        scan(nodes, wires, c, k + 1, st)
    } else if wires[k].0 == c || wires[k].1 == c {
        let far = if wires[k].0 == c { wires[k].1 } else { wires[k].0 };
        let f = collect_spec(nodes, wires[k].1, st.2, st.3);
        scan(nodes, wires, c, k + 1, (st.0.update(k, true), st.1.push(far), f.0, f.1))
    } else {
        scan(nodes, wires, c, k + 1, st)
    }
}

/// One round of growing from the tiles `expand`, from the `e`-th on.
pub open spec fn round(nodes: Seq<PowerNode>, wires: Seq<PowerWire>, expand: Seq<Position>, e: int, st: RoundState) -> RoundState
    decreases expand.len() - e,
{
    if e < 0 || e >= expand.len() {
        st
    } else {
        round(nodes, wires, expand, e + 1, scan(nodes, wires, expand[e], 0, st))
    }
}

/// A scan takes one wire for each tile it adds to the next round.
pub proof fn lemma_scan_counts(nodes: Seq<PowerNode>, wires: Seq<PowerWire>, c: Position, k: int, st: RoundState)
    requires
        0 <= k,
        st.0.len() == wires.len(),
    ensures
        scan(nodes, wires, c, k, st).0.len() == wires.len(),
        count_false(scan(nodes, wires, c, k, st).0) + scan(nodes, wires, c, k, st).1.len() == count_false(st.0) + st.1.len(),
    decreases wires.len() - k,
{
    if k < wires.len() {
        if !st.0[k] && (wires[k].0 == c || wires[k].1 == c) {
            lemma_count_false_set(st.0, k);
            let far = if wires[k].0 == c { wires[k].1 } else { wires[k].0 };
            let f = collect_spec(nodes, wires[k].1, st.2, st.3);
            lemma_scan_counts(nodes, wires, c, k + 1, (st.0.update(k, true), st.1.push(far), f.0, f.1));
        } else {
            lemma_scan_counts(nodes, wires, c, k + 1, st);
        }
    }
}

/// A round takes one wire for each tile it adds to the next round.
pub proof fn lemma_round_counts(nodes: Seq<PowerNode>, wires: Seq<PowerWire>, expand: Seq<Position>, e: int, st: RoundState)
    requires
        0 <= e,
        st.0.len() == wires.len(),
    ensures
        round(nodes, wires, expand, e, st).0.len() == wires.len(),
        count_false(round(nodes, wires, expand, e, st).0) + round(nodes, wires, expand, e, st).1.len() == count_false(st.0)
            + st.1.len(),
    decreases expand.len() - e,
{
    if e < expand.len() {
        lemma_scan_counts(nodes, wires, expand[e], 0, st);
        lemma_round_counts(nodes, wires, expand, e + 1, scan(nodes, wires, expand[e], 0, st));
    }
}

/// Round after round of growing from `expand` until no new tile is
/// reached: the wires taken and the generators and consumers met.
pub open spec fn spread(
    nodes: Seq<PowerNode>,
    wires: Seq<PowerWire>,
    expand: Seq<Position>,
    checked: Seq<bool>,
    sources: Seq<StructureId>,
    sinks: Seq<StructureId>,
) -> (Seq<bool>, Seq<StructureId>, Seq<StructureId>)
    decreases count_false(checked), expand.len(),
{
    if expand.len() == 0 || checked.len() != wires.len() {
        (checked, sources, sinks)
    } else {
        let r = round(nodes, wires, expand, 0, (checked, Seq::empty(), sources, sinks));
        proof {
            lemma_round_counts(nodes, wires, expand, 0, (checked, Seq::empty(), sources, sinks));
        }
        spread(nodes, wires, r.1, r.0, r.2, r.3)
    }
}

/// A network as values: its wires, generators and consumers.
pub type NetValue = (Seq<(StructureId, StructureId)>, Seq<StructureId>, Seq<StructureId>);

/// The network `n` as values.
pub open spec fn net_value(n: PowerNetwork) -> NetValue {
    (n.wires@, n.sources@, n.sinks@)
}

/// Growing a network from `nodes[s]` with the wires `checked` already
/// taken: the network, if it has both a generator and a consumer, and the
/// wires taken afterwards. The structure itself is filed first; then the
/// first pass ([`seed_pass`]) and the rounds ([`spread`]) follow.
pub open spec fn grow_spec(nodes: Seq<PowerNode>, wires: Seq<PowerWire>, checked: Seq<bool>, s: int) -> (Option<NetValue>, Seq<bool>) {
    let seed = nodes[s];
    let so: Seq<StructureId> = if seed.source { seq![seed.id] } else { Seq::empty() };
    let si: Seq<StructureId> = if seed.sink { seq![seed.id] } else { Seq::empty() };
    let p = seed_pass(nodes, wires, seed.position, 0, (checked, Seq::empty(), so, si, None));
    let nw: Seq<(StructureId, StructureId)> = match p.4 {
        Some(x) => seq![x],
        None => Seq::empty(),
    };
    let q = spread(nodes, wires, p.1, p.0, p.2, p.3);
    (if q.1.len() > 0 && q.2.len() > 0 { Some((nw, q.1, q.2)) } else { None }, q.0)
}

/// The networks grown from the structures of `nodes` from index `s` on,
/// with the wires `checked` already taken: each structure that produces or
/// consumes electricity grows one, in order, over the wires not yet taken,
/// and those with both a generator and a consumer are kept.
pub open spec fn networks_from(nodes: Seq<PowerNode>, wires: Seq<PowerWire>, s: int, checked: Seq<bool>) -> Seq<NetValue>
    decreases nodes.len() - s,
{
    if s < 0 || s >= nodes.len() {
        Seq::empty()
    } else if !(nodes[s].source || nodes[s].sink) {
        networks_from(nodes, wires, s + 1, checked)
    } else {
        let g = grow_spec(nodes, wires, checked, s);
        match g.0 {
            Some(n) => seq![n] + networks_from(nodes, wires, s + 1, g.1),
            None => networks_from(nodes, wires, s + 1, g.1),
        }
    }
}

/// The power networks of the structures `nodes` joined by `wires`.
pub open spec fn power_networks(nodes: Seq<PowerNode>, wires: Seq<PowerWire>) -> Seq<NetValue> {
    networks_from(nodes, wires, 0, Seq::new(wires.len(), |i: int| false))
}

/// The first structure of `nodes` on tile `position`, if any.
fn find_node(nodes: &Vec<PowerNode>, position: &Position) -> (ret: Option<usize>)
    ensures
        match ret {
            Some(i) => i < nodes.len() && nodes[i as int].position == *position && forall|j: int|
                0 <= j < i ==> nodes[j].position != *position,
            None => forall|j: int| 0 <= j < nodes.len() ==> nodes[j].position != *position,
        },
        match ret {
            Some(i) => first_node_from(nodes@, *position, 0) == Some(i as int),
            None => first_node_from(nodes@, *position, 0) is None,
        },
{
    let mut i: usize = 0;
    while i < nodes.len()
        invariant
            i <= nodes.len(),
            forall|j: int| 0 <= j < i ==> nodes[j].position != *position,
            first_node_from(nodes@, *position, 0) == first_node_from(nodes@, *position, i as int),
        decreases nodes.len() - i,
    {
        if nodes[i].position == *position {
            return Some(i);
        }
        i += 1;
    }
    None
}

/// Whether `sources` and `sinks` hold only generators and consumers linked
/// by wires to `origin`, each list starting with the seed structure when it
/// is of that kind.
pub open spec fn collected(
    nodes: Seq<PowerNode>,
    wires: Seq<PowerWire>,
    origin: Position,
    seed: PowerNode,
    sources: Seq<StructureId>,
    sinks: Seq<StructureId>,
) -> bool {
    &&& forall|j: int| 0 <= j < sources.len() ==> member_of(nodes, wires, origin, #[trigger] sources[j], true)
    &&& forall|j: int| 0 <= j < sinks.len() ==> member_of(nodes, wires, origin, #[trigger] sinks[j], false)
    &&& seed.source ==> sources.len() > 0 && sources[0] == seed.id
    &&& seed.sink ==> sinks.len() > 0 && sinks[0] == seed.id
}

/// Looks up the first structure on tile `position` and files its handle
/// under the generators and/or consumers; returns its index.
fn collect_node(
    nodes: &Vec<PowerNode>,
    position: &Position,
    sources: &mut Vec<StructureId>,
    sinks: &mut Vec<StructureId>,
    Ghost(wires): Ghost<Seq<PowerWire>>,
    Ghost(origin): Ghost<Position>,
    Ghost(seed): Ghost<PowerNode>,
) -> (ret: Option<usize>)
    requires
        collected(nodes@, wires, origin, seed, old(sources)@, old(sinks)@),
        linked(wires, origin, *position),
    ensures
        collected(nodes@, wires, origin, seed, final(sources)@, final(sinks)@),
        final(sources)@.len() >= old(sources)@.len(),
        final(sinks)@.len() >= old(sinks)@.len(),
        forall|i: int| #[trigger] first_node_on(nodes@, i, *position) ==> (nodes@[i].source ==> final(sources)@.len() > 0)
            && (nodes@[i].sink ==> final(sinks)@.len() > 0),
        match ret {
            Some(i) => i < nodes.len() && nodes[i as int].position == *position,
            None => true,
        },
        (final(sources)@, final(sinks)@) == collect_spec(nodes@, *position, old(sources)@, old(sinks)@),
        match ret {
            Some(i) => first_node_from(nodes@, *position, 0) == Some(i as int),
            None => first_node_from(nodes@, *position, 0) is None,
        },
{
    let found = find_node(nodes, position);
    proof {
        assert forall|i: int| #[trigger] first_node_on(nodes@, i, *position) implies found == Some(i as usize) by {
            match found {
                Some(f) => {
                    if i < f {
                        assert(nodes@[i].position != *position);
                    } else if f < i {
                        assert(nodes@[f as int].position != *position);
                    }
                },
                None => {
                    assert(nodes@[i].position != *position);
                },
            }
        }
    }
    if let Some(i) = found {
        let node = nodes[i];
        if node.source {
            sources.push(node.id);
        }
        if node.sink {
            sinks.push(node.id);
        }
        proof {
            let ns = final(sources)@;
            let nk = final(sinks)@;
            assert forall|j: int| 0 <= j < ns.len() implies member_of(nodes@, wires, origin, #[trigger] ns[j], true) by {
                if j < old(sources)@.len() {
                    assert(ns[j] == old(sources)@[j]);
                } else {
                    assert(nodes@[i as int].id == ns[j]);
                }
            }
            assert forall|j: int| 0 <= j < nk.len() implies member_of(nodes@, wires, origin, #[trigger] nk[j], false) by {
                if j < old(sinks)@.len() {
                    assert(nk[j] == old(sinks)@[j]);
                } else {
                    assert(nodes@[i as int].id == nk[j]);
                }
            }
        }
    }
    found
}

/// Grows a network from the structure `nodes[s]`: takes every wire not
/// yet taken that hangs from it, then, round after round, every wire not
/// yet taken that hangs from a tile reached in the round before, and files
/// the structures met on the way. Gives the network if it has both a
/// generator and a consumer.
fn grow_network(nodes: &Vec<PowerNode>, wires: &Vec<PowerWire>, checked: &mut Vec<bool>, s: usize) -> (ret: Option<PowerNetwork>)
    requires
        s < nodes.len(),
        nodes[s as int].source || nodes[s as int].sink,
        old(checked).len() == wires.len(),
    ensures
        final(checked).len() == wires.len(),
        match ret {
            Some(net) => grown_from(nodes@, wires@, s as int, net),
            None => true,
        },
        (forall|j: int| 0 <= j < wires.len() ==> !old(checked)@[j]) && starts_network(nodes@, wires@, s as int) ==> ret is Some,
        final(checked)@ == grow_spec(nodes@, wires@, old(checked)@, s as int).1,
        match ret {
            Some(net) => grow_spec(nodes@, wires@, old(checked)@, s as int).0 == Some(net_value(net)),
            None => grow_spec(nodes@, wires@, old(checked)@, s as int).0 is None,
        },
{
    let ghost checked0 = checked@;
    let seed = nodes[s];
    let origin = seed.position;
    let mut expand: Vec<Position> = Vec::new();
    let mut net_wires: Vec<(StructureId, StructureId)> = Vec::new();
    let mut sources: Vec<StructureId> = Vec::new();
    let mut sinks: Vec<StructureId> = Vec::new();
    if seed.source {
        sources.push(seed.id);
    }
    if seed.sink {
        sinks.push(seed.id);
    }
    proof {
        lemma_linked_refl(wires@, origin);
        assert(nodes@[s as int].id == seed.id);
        assert(collected(nodes@, wires@, origin, seed, sources@, sinks@));
    }
    let ghost fresh = forall|j: int| 0 <= j < wires.len() ==> !checked0[j];
    let ghost lone = no_self_wire(wires@, origin);
    let ghost (k0, i0) = choose|k: int, i: int| partner_at(nodes@, wires@, s as int, k, i);
    let ghost partnered = fresh && lone && partner_at(nodes@, wires@, s as int, k0, i0);
    let mut lr: Option<(StructureId, StructureId)> = None;
    let ghost sp0: SeedState = (checked@, expand@, sources@, sinks@, lr);
    let mut k: usize = 0;
    while k < wires.len() && lr.is_none()
        invariant
            seed_pass(nodes@, wires@, origin, 0, sp0) == seed_pass(nodes@, wires@, origin, k as int, (checked@, expand@, sources@, sinks@, lr)),
            checked.len() == wires.len(),
            k <= wires.len(),
            forall|j: int| 0 <= j < expand.len() ==> linked(wires@, origin, #[trigger] expand@[j]),
            collected(nodes@, wires@, origin, seed, sources@, sinks@),
            lr matches Some(p) ==> stands_at(nodes@, p.0, origin) && stands_at(nodes@, p.1, origin),
            forall|j: int| k <= j < wires.len() ==> checked@[j] == checked0[j],
            lone ==> lr is None,
            partnered && k0 < k ==> sources@.len() > 0 && sinks@.len() > 0,
            fresh == (forall|j: int| 0 <= j < wires.len() ==> !checked0[j]),
            lone == no_self_wire(wires@, origin),
            partnered == (fresh && lone && partner_at(nodes@, wires@, s as int, k0, i0)),
            origin == nodes@[s as int].position,
            seed == nodes@[s as int],
        decreases wires.len() - k,
    {
        let w = wires[k];
        proof {
            if partnered && k as int == k0 {
                assert(!checked0[k0]);
                assert(first_node_on(nodes@, i0, nodes@[i0].position));
            }
        }
        if !checked[k] {
            let left = if w.0 == origin {
                expand.push(w.1);
                checked.set(k, true);
                proof {
                    lemma_linked_refl(wires@, origin);
                    lemma_linked_step(wires@, origin, origin, k as int, w.1);
                }
                match collect_node(nodes, &w.1, &mut sources, &mut sinks, Ghost(wires@), Ghost(origin), Ghost(seed)) {
                    Some(i) => Some((i, nodes[i].id)),
                    None => None,
                }
            } else {
                None
            };
            let right = if w.1 == origin {
                expand.push(w.0);
                checked.set(k, true);
                proof {
                    lemma_linked_refl(wires@, origin);
                    lemma_linked_step(wires@, origin, origin, k as int, w.0);
                }
                match collect_node(nodes, &w.0, &mut sources, &mut sinks, Ghost(wires@), Ghost(origin), Ghost(seed)) {
                    Some(i) => Some((i, nodes[i].id)),
                    None => None,
                }
            } else {
                None
            };
            proof {
                if partnered && k as int == k0 {
                    if w.0 == origin {
                        assert(w.1 == nodes@[i0].position);
                    } else {
                        assert(w.0 == nodes@[i0].position);
                    }
                }
            }
            if let (Some(l), Some(r)) = (left, right) {
                proof {
                    assert(nodes@[l.0 as int].id == l.1);
                    assert(nodes@[r.0 as int].id == r.1);
                }
                lr = Some((l.1, r.1));
            }
        }
        k += 1;
    }
    let ghost p = seed_pass(nodes@, wires@, origin, 0, sp0);
    assert(p == (checked@, expand@, sources@, sinks@, lr));
    if let Some(p) = lr {
        net_wires.push(p);
    }
    let ghost target = spread(nodes@, wires@, p.1, p.0, p.2, p.3);
    assert(partnered ==> sources@.len() > 0 && sinks@.len() > 0);
    while expand.len() > 0
        invariant
            checked.len() == wires.len(),
            forall|j: int| 0 <= j < expand.len() ==> linked(wires@, origin, #[trigger] expand@[j]),
            collected(nodes@, wires@, origin, seed, sources@, sinks@),
            forall|j: int| 0 <= j < net_wires.len() ==> stands_at(nodes@, (#[trigger] net_wires@[j]).0, origin)
                && stands_at(nodes@, net_wires@[j].1, origin),
            partnered ==> sources@.len() > 0 && sinks@.len() > 0,
            spread(nodes@, wires@, expand@, checked@, sources@, sinks@) == target,
            net_wires@ == match p.4 {
                Some(x) => seq![x],
                None => Seq::<(StructureId, StructureId)>::empty(),
            },
        decreases count_false(checked@) + if expand.len() > 0 { 1int } else { 0int },
    {
        let ghost start = count_false(checked@);
        let ghost st_start: RoundState = (checked@, Seq::empty(), sources@, sinks@);
        let ghost expand0 = expand@;
        let mut next: Vec<Position> = Vec::new();
        let mut e: usize = 0;
        while e < expand.len()
            invariant
                checked.len() == wires.len(),
                e <= expand.len(),
                forall|j: int| 0 <= j < expand.len() ==> linked(wires@, origin, #[trigger] expand@[j]),
                forall|j: int| 0 <= j < next.len() ==> linked(wires@, origin, #[trigger] next@[j]),
                count_false(checked@) + (if next.len() > 0 { 1int } else { 0int }) <= start,
                collected(nodes@, wires@, origin, seed, sources@, sinks@),
                partnered ==> sources@.len() > 0 && sinks@.len() > 0,
                round(nodes@, wires@, expand@, 0, st_start) == round(nodes@, wires@, expand@, e as int, (checked@, next@, sources@, sinks@)),
                expand@ == expand0,
            decreases expand.len() - e,
        {
            let c = expand[e];
            let ghost st_e: RoundState = (checked@, next@, sources@, sinks@);
            assert(linked(wires@, origin, expand@[e as int]));
            let mut k: usize = 0;
            while k < wires.len()
                invariant
                    checked.len() == wires.len(),
                    k <= wires.len(),
                    linked(wires@, origin, c),
                    forall|j: int| 0 <= j < next.len() ==> linked(wires@, origin, #[trigger] next@[j]),
                    count_false(checked@) + (if next.len() > 0 { 1int } else { 0int }) <= start,
                    collected(nodes@, wires@, origin, seed, sources@, sinks@),
                    partnered ==> sources@.len() > 0 && sinks@.len() > 0,
                    scan(nodes@, wires@, c, 0, st_e) == scan(nodes@, wires@, c, k as int, (checked@, next@, sources@, sinks@)),
                decreases wires.len() - k,
            {
                if !checked[k] {
                    let w = wires[k];
                    if w.0 == c {
                        next.push(w.1);
                        proof {
                            lemma_count_false_set(checked@, k as int);
                            lemma_linked_step(wires@, origin, c, k as int, w.1);
                        }
                        checked.set(k, true);
                        collect_node(nodes, &w.1, &mut sources, &mut sinks, Ghost(wires@), Ghost(origin), Ghost(seed));
                    } else if w.1 == c {
                        next.push(w.0);
                        proof {
                            lemma_count_false_set(checked@, k as int);
                            lemma_linked_step(wires@, origin, c, k as int, w.0);
                        }
                        checked.set(k, true);
                        collect_node(nodes, &w.1, &mut sources, &mut sinks, Ghost(wires@), Ghost(origin), Ghost(seed));
                    }
                }
                k += 1;
            }
            assert(scan(nodes@, wires@, c, 0, st_e) == (checked@, next@, sources@, sinks@));
            e += 1;
        }
        assert(round(nodes@, wires@, expand@, 0, st_start) == (checked@, next@, sources@, sinks@));
        expand = next;
    }
    if sources.len() > 0 && sinks.len() > 0 {
        Some(PowerNetwork { wires: net_wires, sources, sinks })
    } else {
        None
    }
}

/// Groups the structures into power networks. Each structure that produces
/// or consumes electricity, in order, grows a network over the wires that
/// no earlier network took; the networks with at least one generator and
/// one consumer are kept. The first structure that produces or consumes
/// electricity grows the first network whenever it starts one on its own
/// (see [`starts_network`]).
pub fn build_power_networks(structures: &Vec<PowerNode>, power_wires: &Vec<PowerWire>) -> (ret: Vec<PowerNetwork>)
    ensures
        ret.len() <= structures.len(),
        forall|i: int| 0 <= i < ret.len() ==> is_network_of(structures@, power_wires@, #[trigger] ret@[i]),
        forall|s: int| #[trigger] first_power(structures@, s) && starts_network(structures@, power_wires@, s) ==> ret.len() > 0
            && grown_from(structures@, power_wires@, s, ret@[0]),
        ret@.map_values(|n: PowerNetwork| net_value(n)) == power_networks(structures@, power_wires@),
{
    let mut checked: Vec<bool> = Vec::new();
    let mut k: usize = 0;
    while k < power_wires.len()
        invariant
            k <= power_wires.len(),
            checked.len() == k,
            forall|j: int| 0 <= j < k ==> !checked@[j],
        decreases power_wires.len() - k,
    {
        checked.push(false);
        k += 1;
    }
    let mut ret: Vec<PowerNetwork> = Vec::new();
    assert(checked@ =~= Seq::new(power_wires@.len(), |i: int| false));
    let mut s: usize = 0;
    while s < structures.len()
        invariant
            s <= structures.len(),
            checked.len() == power_wires.len(),
            ret.len() <= s,
            forall|i: int| 0 <= i < ret.len() ==> is_network_of(structures@, power_wires@, #[trigger] ret@[i]),
            no_power_before(structures@, s as int) ==> ret.len() == 0
                && forall|j: int| 0 <= j < checked.len() ==> !checked@[j],
            forall|f: int| #[trigger] first_power(structures@, f) && f < s && starts_network(structures@, power_wires@, f)
                ==> ret.len() > 0 && grown_from(structures@, power_wires@, f, ret@[0]),
            ret@.map_values(|n: PowerNetwork| net_value(n)) + networks_from(structures@, power_wires@, s as int, checked@)
                == power_networks(structures@, power_wires@),
        decreases structures.len() - s,
    {
        let node = structures[s];
        let ghost none_before = no_power_before(structures@, s as int);
        let ghost c0 = checked@;
        let ghost r0 = ret@;
        if node.source || node.sink {
            proof {
                if none_before {
                    assert(first_power(structures@, s as int));
                }
                assert forall|f: int| #[trigger] first_power(structures@, f) && f < s + 1 && !(f < s) implies f == s by {}
            }
            let grown = grow_network(structures, power_wires, &mut checked, s);
            proof {
                if none_before && starts_network(structures@, power_wires@, s as int) {
                    assert(grown is Some);
                }
            }
            proof {
                let g = grow_spec(structures@, power_wires@, c0, s as int);
                assert(networks_from(structures@, power_wires@, s as int, c0) == match g.0 {
                    Some(n) => seq![n] + networks_from(structures@, power_wires@, s + 1, g.1),
                    None => networks_from(structures@, power_wires@, s + 1, g.1),
                });
            }
            if let Some(net) = grown {
                let ghost before = ret@;
                ret.push(net);
                proof {
                    let rest = networks_from(structures@, power_wires@, s + 1, checked@);
                    assert(ret@.map_values(|n: PowerNetwork| net_value(n)) =~= before.map_values(|n: PowerNetwork| net_value(n)).push(
                        net_value(net),
                    ));
                    assert(before.map_values(|n: PowerNetwork| net_value(n)).push(net_value(net)) + rest =~= before.map_values(
                        |n: PowerNetwork| net_value(n),
                    ) + (seq![net_value(net)] + rest));
                    if before.len() > 0 {
                        assert(ret@[0] == before[0]);
                    }
                    assert forall|i: int| 0 <= i < ret.len() implies is_network_of(structures@, power_wires@, #[trigger] ret@[i]) by {
                        if i < before.len() {
                            assert(ret@[i] == before[i]);
                        } else {
                            assert(grown_from(structures@, power_wires@, s as int, ret@[i]));
                        }
                    }
                }
            }
        }
        s += 1;
    }
    ret
}

/// Whether the structures `a` and `b` get a wire between them: one can
/// feed the other, and they stand within the reach of both their wires.
pub open spec fn wire_between(a: PowerNode, b: PowerNode) -> bool {
    &&& (a.sink && b.source) || (a.source && b.sink)
    &&& distance_spec(a.position, b.position) <= a.wire_reach
    &&& distance_spec(a.position, b.position) <= b.wire_reach
}

/// Whether the coordinates of `a` and `b` differ by an amount that fits in
/// `i32`.
pub open spec fn apart_fits(a: PowerNode, b: PowerNode) -> bool {
    -i32::MAX <= b.position.x - a.position.x <= i32::MAX && -i32::MAX <= b.position.y - a.position.y <= i32::MAX
}

/// Whether [`measurable`] holds of `nodes`, checked pair by pair.
pub fn is_measurable(nodes: &Vec<PowerNode>) -> (ret: bool)
    ensures
        ret == measurable(nodes@),
{
    let n = nodes.len();
    let mut i: usize = 0;
    while i < n
        invariant
            n == nodes@.len(),
            i <= n,
            forall|a: int, b: int| 0 <= a < i && 0 <= b < n ==> #[trigger] apart_fits(nodes@[a], nodes@[b]),
            forall|a: int| 0 <= a < i ==> #[trigger] nodes@[a].wire_reach <= i32::MAX,
        decreases n - i,
    {
        if nodes[i].wire_reach > i32::MAX as u32 {
            assert(!measurable(nodes@)) by {
                assert(!(nodes@[i as int].wire_reach <= i32::MAX));
            }
            return false;
        }
        let mut j: usize = 0;
        while j < n
            invariant
                n == nodes@.len(),
                i < n,
                j <= n,
                forall|b: int| 0 <= b < j ==> #[trigger] apart_fits(nodes@[i as int], nodes@[b]),
            decreases n - j,
        {
            let dx = nodes[j].position.x as i64 - nodes[i].position.x as i64;
            let dy = nodes[j].position.y as i64 - nodes[i].position.y as i64;
            let m = i32::MAX as i64;
            if dx < -m || m < dx || dy < -m || m < dy {
                assert(!measurable(nodes@)) by {
                    assert(!(-i32::MAX <= nodes@[j as int].position.x - nodes@[i as int].position.x <= i32::MAX
                        && -i32::MAX <= nodes@[j as int].position.y - nodes@[i as int].position.y <= i32::MAX));
                }
                return false;
            }
            j += 1;
        }
        i += 1;
    }
    assert(measurable(nodes@)) by {
        assert forall|a: int, b: int| 0 <= a < nodes@.len() && 0 <= b < nodes@.len() implies -i32::MAX <= #[trigger] nodes@[b].position.x
            - #[trigger] nodes@[a].position.x <= i32::MAX && -i32::MAX <= nodes@[b].position.y - nodes@[a].position.y <= i32::MAX by {
            assert(apart_fits(nodes@[a], nodes@[b]));
        }
    }
    true
}

/// Whether `w` is a wire that `wire_between` gives to two structures of
/// `nodes`, the earlier one at its first end.
pub open spec fn is_wire_of(nodes: Seq<PowerNode>, w: PowerWire) -> bool {
    exists|i: int, j: int|
        0 <= i < j < nodes.len() && wire_between(nodes[i], nodes[j]) && w == PowerWire(nodes[i].position, nodes[j].position)
}

/// Whether the coordinates of any two structures of `nodes` differ by an
/// amount that fits in `i32`, and no wire reaches beyond `i32::MAX`.
pub open spec fn measurable(nodes: Seq<PowerNode>) -> bool {
    &&& forall|i: int, j: int| 0 <= i < nodes.len() && 0 <= j < nodes.len() ==>
        -i32::MAX <= #[trigger] nodes[j].position.x - #[trigger] nodes[i].position.x <= i32::MAX
        && -i32::MAX <= nodes[j].position.y - nodes[i].position.y <= i32::MAX
    &&& forall|i: int| 0 <= i < nodes.len() ==> #[trigger] nodes[i].wire_reach <= i32::MAX
}

/// Whether `after` is `before` with the wires that `wire_between` gives
/// to two structures of `nodes` appended: every such wire is in `after`,
/// and each appended one is such a wire, listed once and not already in
/// `before`.
pub open spec fn wires_added(nodes: Seq<PowerNode>, before: Seq<PowerWire>, after: Seq<PowerWire>) -> bool {
    &&& before.len() <= after.len()
    &&& forall|k: int| 0 <= k < before.len() ==> after[k] == before[k]
    &&& forall|i: int, j: int| 0 <= i < j < nodes.len() && wire_between(nodes[i], nodes[j]) ==>
        after.contains(PowerWire(#[trigger] nodes[i].position, #[trigger] nodes[j].position))
    &&& forall|k: int| before.len() <= k < after.len() ==> is_wire_of(nodes, #[trigger] after[k])
    &&& forall|k: int, m: int| 0 <= m < k < after.len() && before.len() <= k ==> #[trigger] after[m] != #[trigger] after[k]
}

/// Stringing the wires a second time adds none: every wire the structures
/// call for is there after the first time.
pub proof fn lemma_connect_twice_adds_nothing(nodes: Seq<PowerNode>, w0: Seq<PowerWire>, w1: Seq<PowerWire>, w2: Seq<PowerWire>)
    requires
        wires_added(nodes, w0, w1),
        wires_added(nodes, w1, w2),
    ensures
        w2 == w1,
{
    if w2.len() > w1.len() {
        let k = w1.len() as int;
        assert(is_wire_of(nodes, w2[k]));
        let (i, j) = choose|i: int, j: int|
            0 <= i < j < nodes.len() && wire_between(nodes[i], nodes[j]) && w2[k] == PowerWire(nodes[i].position, nodes[j].position);
        assert(w1.contains(PowerWire(nodes[i].position, nodes[j].position)));
        let m = choose|m: int| 0 <= m < w1.len() && w1[m] == PowerWire(nodes[i].position, nodes[j].position);
        assert(w2[m] == w1[m]);
        assert(w2[m] != w2[k]);
    }
    assert(w2 =~= w1);
}

/// Strings a wire between every two structures, the earlier first, that
/// `wire_between` pairs, unless `wires` already holds that wire.
pub fn connect_power_wires(nodes: &Vec<PowerNode>, wires: &mut Vec<PowerWire>)
    requires
        measurable(nodes@),
    ensures
        wires_added(nodes@, old(wires)@, final(wires)@),
{
    let ghost w0 = wires@;
    let mut i: usize = 0;
    while i < nodes.len()
        invariant
            measurable(nodes@),
            i <= nodes.len(),
            w0.len() <= wires@.len(),
            forall|k: int| 0 <= k < w0.len() ==> wires@[k] == w0[k],
            forall|a: int, b: int| 0 <= a < i && a < b < nodes.len() && wire_between(nodes@[a], nodes@[b]) ==>
                wires@.contains(PowerWire(#[trigger] nodes@[a].position, #[trigger] nodes@[b].position)),
            forall|k: int| w0.len() <= k < wires@.len() ==> is_wire_of(nodes@, #[trigger] wires@[k]),
            forall|k: int, m: int| 0 <= m < k < wires@.len() && w0.len() <= k ==>
                #[trigger] wires@[m] != #[trigger] wires@[k],
        decreases nodes.len() - i,
    {
        let mut j: usize = i + 1;
        while j < nodes.len()
            invariant
                measurable(nodes@),
                i < nodes.len(),
                i + 1 <= j <= nodes.len(),
                w0.len() <= wires@.len(),
                forall|k: int| 0 <= k < w0.len() ==> wires@[k] == w0[k],
                forall|a: int, b: int| 0 <= a < i && a < b < nodes.len() && wire_between(nodes@[a], nodes@[b]) ==>
                    wires@.contains(PowerWire(#[trigger] nodes@[a].position, #[trigger] nodes@[b].position)),
                forall|b: int| i < b < j && wire_between(nodes@[i as int], nodes@[b]) ==>
                    wires@.contains(PowerWire(nodes@[i as int].position, #[trigger] nodes@[b].position)),
                forall|k: int| w0.len() <= k < wires@.len() ==> is_wire_of(nodes@, #[trigger] wires@[k]),
                forall|k: int, m: int| 0 <= m < k < wires@.len() && w0.len() <= k ==>
                    #[trigger] wires@[m] != #[trigger] wires@[k],
            decreases nodes.len() - j,
        {
            let a = nodes[i];
            let b = nodes[j];
            proof {
                assert(-i32::MAX <= nodes@[j as int].position.x - nodes@[i as int].position.x <= i32::MAX);
                assert(nodes@[i as int].wire_reach <= i32::MAX && nodes@[j as int].wire_reach <= i32::MAX);
            }
            let feeds = (a.sink && b.source) || (a.source && b.sink);
            if feeds {
                let d = a.position.distance(&b.position);
                let reach = if a.wire_reach < b.wire_reach { a.wire_reach } else { b.wire_reach };
                if d <= reach as i32 {
                    let add = PowerWire(a.position, b.position);
                    let mut present = false;
                    let mut k: usize = 0;
                    while k < wires.len()
                        invariant
                            k <= wires.len(),
                            present <==> exists|m: int| 0 <= m < k && wires@[m] == add,
                        decreases wires.len() - k,
                    {
                        if wires[k] == add {
                            present = true;
                        }
                        k += 1;
                    }
                    if !present {
                        let ghost before = wires@;
                        wires.push(add);
                        proof {
                            assert(wires@[before.len() as int] == add);
                            assert forall|a2: int, b2: int| 0 <= a2 < i && a2 < b2 < nodes.len() && wire_between(nodes@[a2], nodes@[b2]) implies
                                wires@.contains(PowerWire(#[trigger] nodes@[a2].position, #[trigger] nodes@[b2].position)) by {
                                assert(before.contains(PowerWire(nodes@[a2].position, nodes@[b2].position)));
                                let m = choose|m: int| 0 <= m < before.len() && before[m] == PowerWire(nodes@[a2].position, nodes@[b2].position);
                                assert(wires@[m] == before[m]);
                            }
                            assert forall|b2: int| i < b2 < j + 1 && wire_between(nodes@[i as int], nodes@[b2]) implies
                                wires@.contains(PowerWire(nodes@[i as int].position, #[trigger] nodes@[b2].position)) by {
                                if b2 < j {
                                    let m = choose|m: int| 0 <= m < before.len() && before[m] == PowerWire(nodes@[i as int].position, nodes@[b2].position);
                                    assert(wires@[m] == before[m]);
                                } else {
                                    assert(wires@[before.len() as int] == PowerWire(nodes@[i as int].position, nodes@[b2].position));
                                }
                            }
                            assert forall|k2: int| w0.len() <= k2 < wires@.len() implies is_wire_of(nodes@, #[trigger] wires@[k2]) by {
                                if k2 < before.len() {
                                    assert(wires@[k2] == before[k2]);
                                } else {
                                    assert(wire_between(nodes@[i as int], nodes@[j as int]));
                                    assert(wires@[k2] == PowerWire(nodes@[i as int].position, nodes@[j as int].position));
                                }
                            }
                            assert forall|k2: int, m: int| 0 <= m < k2 < wires@.len() && w0.len() <= k2 implies
                                #[trigger] wires@[m] != #[trigger] wires@[k2] by {
                                if k2 < before.len() {
                                    assert(wires@[k2] == before[k2] && wires@[m] == before[m]);
                                } else {
                                    assert(wires@[m] == before[m]);
                                }
                            }
                        }
                    } else {
                        proof {
                            assert forall|b2: int| i < b2 < j + 1 && wire_between(nodes@[i as int], nodes@[b2]) implies
                                wires@.contains(PowerWire(nodes@[i as int].position, #[trigger] nodes@[b2].position)) by {
                                if b2 == j {
                                    let m = choose|m: int| 0 <= m < wires@.len() && wires@[m] == add;
                                }
                            }
                        }
                    }
                }
            }
            j += 1;
        }
        i += 1;
    }
}

} // verus!
