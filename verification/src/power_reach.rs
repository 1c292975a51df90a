//! How far growing a power network reaches: every wire met along the way
//! is taken, and the structures at the wires' far ends are filed.
use crate::power_network::{
    collect_spec, count_false, first_node_from, first_power, grow_spec, is_wire_path, joined, lemma_round_counts, linked,
    networks_from, no_power_before, node_id_at, power_networks, round, scan, seed_pass, spread, wired, PowerNode, PowerWire,
    RoundState, SeedState,
};
use crate::structure::{Position, StructureId};
use vstd::prelude::*;

verus! {

/// Whether wire `w` has an end on tile `t`.
pub open spec fn touches(w: PowerWire, t: Position) -> bool {
    w.0 == t || w.1 == t
}

/// Whether every wire with an end on tile `t` is taken in `taken`.
pub open spec fn closed_at(wires: Seq<PowerWire>, taken: Seq<bool>, t: Position) -> bool {
    forall|j: int| 0 <= j < wires.len() && #[trigger] touches(wires[j], t) ==> taken[j]
}

/// Whether wire `j` is taken in `after` but was not in `before`.
pub open spec fn newly(before: Seq<bool>, after: Seq<bool>, j: int) -> bool {
    !before[j] && after[j]
}

/// Whether `after` keeps every wire taken in `before`.
pub open spec fn keeps(before: Seq<bool>, after: Seq<bool>) -> bool {
    &&& after.len() == before.len()
    &&& forall|j: int| 0 <= j < before.len() && #[trigger] before[j] ==> after[j]
}

/// Whether every handle of `a` is in `b`.
pub open spec fn ids_grow(a: Seq<StructureId>, b: Seq<StructureId>) -> bool {
    forall|x: StructureId| #[trigger] a.contains(x) ==> b.contains(x)
}

/// Whether every tile of `a` is in `b`.
pub open spec fn tiles_grow(a: Seq<Position>, b: Seq<Position>) -> bool {
    forall|x: Position| #[trigger] a.contains(x) ==> b.contains(x)
}

/// Whether the first structure on tile `pos`, if any, is among the
/// generators `so` when it produces electricity and among the consumers
/// `si` when it consumes it.
pub open spec fn filed(nodes: Seq<PowerNode>, pos: Position, so: Seq<StructureId>, si: Seq<StructureId>) -> bool {
    match first_node_from(nodes, pos, 0) {
        Some(i) => (nodes[i].source ==> so.contains(nodes[i].id)) && (nodes[i].sink ==> si.contains(nodes[i].id)),
        None => true,
    }
}

proof fn lemma_filed_grows(nodes: Seq<PowerNode>, pos: Position, so: Seq<StructureId>, si: Seq<StructureId>, so2: Seq<StructureId>, si2: Seq<StructureId>)
    requires
        filed(nodes, pos, so, si),
        ids_grow(so, so2),
        ids_grow(si, si2),
    ensures
        filed(nodes, pos, so2, si2),
{
    if let Some(i) = first_node_from(nodes, pos, 0) {
        if nodes[i].source {
            assert(so.contains(nodes[i].id));
        }
        if nodes[i].sink {
            assert(si.contains(nodes[i].id));
        }
    }
}

proof fn lemma_collect_files(nodes: Seq<PowerNode>, pos: Position, so: Seq<StructureId>, si: Seq<StructureId>)
    ensures
        filed(nodes, pos, collect_spec(nodes, pos, so, si).0, collect_spec(nodes, pos, so, si).1),
        ids_grow(so, collect_spec(nodes, pos, so, si).0),
        ids_grow(si, collect_spec(nodes, pos, so, si).1),
{
    let c = collect_spec(nodes, pos, so, si);
    if let Some(i) = first_node_from(nodes, pos, 0) {
        if nodes[i].source {
            assert(c.0 == so.push(nodes[i].id));
            assert(c.0[so.len() as int] == nodes[i].id);
        }
        if nodes[i].sink {
            assert(c.1 == si.push(nodes[i].id));
            assert(c.1[si.len() as int] == nodes[i].id);
        }
    }
    assert forall|x: StructureId| #[trigger] so.contains(x) implies c.0.contains(x) by {
        let k = choose|k: int| 0 <= k < so.len() && so[k] == x;
        assert(c.0[k] == x);
    }
    assert forall|x: StructureId| #[trigger] si.contains(x) implies c.1.contains(x) by {
        let k = choose|k: int| 0 <= k < si.len() && si[k] == x;
        assert(c.1[k] == x);
    }
}

proof fn lemma_push_grows(a: Seq<Position>, t: Position)
    ensures
        tiles_grow(a, a.push(t)),
        a.push(t).contains(t),
{
    assert(a.push(t)[a.len() as int] == t);
    assert forall|x: Position| #[trigger] a.contains(x) implies a.push(t).contains(x) by {
        let k = choose|k: int| 0 <= k < a.len() && a[k] == x;
        assert(a.push(t)[k] == x);
    }
}

proof fn lemma_closed_kept(wires: Seq<PowerWire>, a: Seq<bool>, b: Seq<bool>, t: Position)
    requires
        a.len() == wires.len(),
        closed_at(wires, a, t),
        keeps(a, b),
    ensures
        closed_at(wires, b, t),
{
    assert forall|j: int| 0 <= j < wires.len() && #[trigger] touches(wires[j], t) implies b[j] by {
        assert(a[j]);
    }
}

/// Scanning from tile `c` takes every wire from `k` on with an end on `c`;
/// each wire it takes has an end on `c`, its other end is queued, and the
/// structure at its second end is filed.
pub proof fn lemma_scan_reach(nodes: Seq<PowerNode>, wires: Seq<PowerWire>, c: Position, k: int, st: RoundState)
    requires
        0 <= k,
        st.0.len() == wires.len(),
    ensures
        ({
            let r = scan(nodes, wires, c, k, st);
            &&& keeps(st.0, r.0)
            &&& forall|j: int| k <= j < wires.len() && #[trigger] touches(wires[j], c) ==> r.0[j]
            &&& forall|j: int|
                0 <= j < wires.len() && #[trigger] newly(st.0, r.0, j) ==> touches(wires[j], c) && (wires[j].0 == c
                    || r.1.contains(wires[j].0)) && (wires[j].1 == c || r.1.contains(wires[j].1)) && filed(
                    nodes,
                    wires[j].1,
                    r.2,
                    r.3,
                )
            &&& tiles_grow(st.1, r.1)
            &&& ids_grow(st.2, r.2)
            &&& ids_grow(st.3, r.3)
        }),
    decreases wires.len() - k,
{
    let r = scan(nodes, wires, c, k, st);
    if k < wires.len() {
        if !st.0[k] && (wires[k].0 == c || wires[k].1 == c) {
            let far = if wires[k].0 == c { wires[k].1 } else { wires[k].0 };
            let f = collect_spec(nodes, wires[k].1, st.2, st.3);
            let st2: RoundState = (st.0.update(k, true), st.1.push(far), f.0, f.1);
            lemma_scan_reach(nodes, wires, c, k + 1, st2);
            lemma_collect_files(nodes, wires[k].1, st.2, st.3);
            lemma_push_grows(st.1, far);
            lemma_filed_grows(nodes, wires[k].1, f.0, f.1, r.2, r.3);
            assert(r == scan(nodes, wires, c, k + 1, st2));
            assert(keeps(st.0, r.0)) by {
                assert forall|j: int| 0 <= j < st.0.len() && #[trigger] st.0[j] implies r.0[j] by {
                    assert(st2.0[j]);
                }
            }
            assert(st2.0[k]);
            assert(r.0[k]);
            assert(r.1.contains(far));
            assert forall|j: int| 0 <= j < wires.len() && #[trigger] newly(st.0, r.0, j) implies touches(wires[j], c) && (wires[j].0
                == c || r.1.contains(wires[j].0)) && (wires[j].1 == c || r.1.contains(wires[j].1)) && filed(nodes, wires[j].1, r.2, r.3) by {
                if j != k {
                    assert(newly(st2.0, r.0, j));
                }
            }
            assert forall|x: Position| #[trigger] st.1.contains(x) implies r.1.contains(x) by {
                assert(st2.1.contains(x));
            }
            assert forall|x: StructureId| #[trigger] st.2.contains(x) implies r.2.contains(x) by {
                assert(st2.2.contains(x));
            }
            assert forall|x: StructureId| #[trigger] st.3.contains(x) implies r.3.contains(x) by {
                assert(st2.3.contains(x));
            }
        } else {
            lemma_scan_reach(nodes, wires, c, k + 1, st);
            assert(r == scan(nodes, wires, c, k + 1, st));
            assert forall|j: int| k <= j < wires.len() && #[trigger] touches(wires[j], c) implies r.0[j] by {
                if j == k {
                    assert(st.0[k]);
                }
            }
        }
    }
}

/// A round of growing from the tiles `expand` (from the `e`-th on) leaves
/// every wire at those tiles taken; each end of a wire it takes is either
/// such a tile or queued for the next round, and the structure at each
/// taken wire's second end is filed.
pub proof fn lemma_round_reach(nodes: Seq<PowerNode>, wires: Seq<PowerWire>, expand: Seq<Position>, e: int, st: RoundState)
    requires
        0 <= e,
        st.0.len() == wires.len(),
    ensures
        ({
            let r = round(nodes, wires, expand, e, st);
            &&& keeps(st.0, r.0)
            &&& forall|i: int| e <= i < expand.len() ==> closed_at(wires, r.0, #[trigger] expand[i])
            &&& forall|j: int|
                0 <= j < wires.len() && #[trigger] newly(st.0, r.0, j) ==> (closed_at(wires, r.0, wires[j].0) || r.1.contains(
                    wires[j].0,
                )) && (closed_at(wires, r.0, wires[j].1) || r.1.contains(wires[j].1)) && filed(nodes, wires[j].1, r.2, r.3)
            &&& tiles_grow(st.1, r.1)
            &&& ids_grow(st.2, r.2)
            &&& ids_grow(st.3, r.3)
        }),
    decreases expand.len() - e,
{
    let r = round(nodes, wires, expand, e, st);
    if e < expand.len() {
        let c = expand[e];
        let sc = scan(nodes, wires, c, 0, st);
        lemma_scan_reach(nodes, wires, c, 0, st);
        lemma_round_reach(nodes, wires, expand, e + 1, sc);
        assert(r == round(nodes, wires, expand, e + 1, sc));
        assert(closed_at(wires, sc.0, c));
        lemma_closed_kept(wires, sc.0, r.0, c);
        assert(keeps(st.0, r.0)) by {
            assert forall|j: int| 0 <= j < st.0.len() && #[trigger] st.0[j] implies r.0[j] by {
                assert(sc.0[j]);
            }
        }
        assert forall|i: int| e <= i < expand.len() implies closed_at(wires, r.0, #[trigger] expand[i]) by {
            if i > e {
                assert(e + 1 <= i);
            }
        }
        assert forall|j: int| 0 <= j < wires.len() && #[trigger] newly(st.0, r.0, j) implies (closed_at(wires, r.0, wires[j].0)
            || r.1.contains(wires[j].0)) && (closed_at(wires, r.0, wires[j].1) || r.1.contains(wires[j].1)) && filed(nodes, wires[j].1, r.2, r.3) by {
            if sc.0[j] {
                assert(newly(st.0, sc.0, j));
                lemma_filed_grows(nodes, wires[j].1, sc.2, sc.3, r.2, r.3);
                if wires[j].0 != c {
                    assert(sc.1.contains(wires[j].0));
                }
                if wires[j].1 != c {
                    assert(sc.1.contains(wires[j].1));
                }
            } else {
                assert(newly(sc.0, r.0, j));
            }
        }
        assert forall|x: Position| #[trigger] st.1.contains(x) implies r.1.contains(x) by {
            assert(sc.1.contains(x));
        }
        assert forall|x: StructureId| #[trigger] st.2.contains(x) implies r.2.contains(x) by {
            assert(sc.2.contains(x));
        }
        assert forall|x: StructureId| #[trigger] st.3.contains(x) implies r.3.contains(x) by {
            assert(sc.3.contains(x));
        }
    }
}

/// Growing round after round from the tiles `expand` leaves every wire at
/// those tiles taken, and both ends of every wire it takes closed (no wire
/// there left untaken); the structure at each taken wire's second end is
/// filed.
pub proof fn lemma_spread_reach(
    nodes: Seq<PowerNode>,
    wires: Seq<PowerWire>,
    expand: Seq<Position>,
    checked: Seq<bool>,
    so: Seq<StructureId>,
    si: Seq<StructureId>,
)
    requires
        checked.len() == wires.len(),
    ensures
        ({
            let q = spread(nodes, wires, expand, checked, so, si);
            &&& keeps(checked, q.0)
            &&& forall|t: Position| #[trigger] expand.contains(t) ==> closed_at(wires, q.0, t)
            &&& forall|j: int|
                0 <= j < wires.len() && #[trigger] newly(checked, q.0, j) ==> closed_at(wires, q.0, wires[j].0) && closed_at(
                    wires,
                    q.0,
                    wires[j].1,
                ) && filed(nodes, wires[j].1, q.1, q.2)
            &&& ids_grow(so, q.1)
            &&& ids_grow(si, q.2)
        }),
    decreases count_false(checked), expand.len(),
{
    let q = spread(nodes, wires, expand, checked, so, si);
    if expand.len() > 0 {
        let st: RoundState = (checked, Seq::empty(), so, si);
        let r = round(nodes, wires, expand, 0, st);
        lemma_round_counts(nodes, wires, expand, 0, st);
        lemma_round_reach(nodes, wires, expand, 0, st);
        lemma_spread_reach(nodes, wires, r.1, r.0, r.2, r.3);
        assert(q == spread(nodes, wires, r.1, r.0, r.2, r.3));
        assert(keeps(checked, q.0)) by {
            assert forall|j: int| 0 <= j < checked.len() && #[trigger] checked[j] implies q.0[j] by {
                assert(r.0[j]);
            }
        }
        assert forall|t: Position| #[trigger] expand.contains(t) implies closed_at(wires, q.0, t) by {
            let i = choose|i: int| 0 <= i < expand.len() && expand[i] == t;
            assert(closed_at(wires, r.0, expand[i]));
            lemma_closed_kept(wires, r.0, q.0, t);
        }
        assert forall|j: int| 0 <= j < wires.len() && #[trigger] newly(checked, q.0, j) implies closed_at(wires, q.0, wires[j].0)
            && closed_at(wires, q.0, wires[j].1) && filed(nodes, wires[j].1, q.1, q.2) by {
            if r.0[j] {
                assert(newly(st.0, r.0, j));
                lemma_filed_grows(nodes, wires[j].1, r.2, r.3, q.1, q.2);
                if closed_at(wires, r.0, wires[j].0) {
                    lemma_closed_kept(wires, r.0, q.0, wires[j].0);
                } else {
                    assert(r.1.contains(wires[j].0));
                }
                if closed_at(wires, r.0, wires[j].1) {
                    lemma_closed_kept(wires, r.0, q.0, wires[j].1);
                } else {
                    assert(r.1.contains(wires[j].1));
                }
            } else {
                assert(newly(r.0, q.0, j));
            }
        }
        assert forall|x: StructureId| #[trigger] so.contains(x) implies q.1.contains(x) by {
            assert(r.2.contains(x));
        }
        assert forall|x: StructureId| #[trigger] si.contains(x) implies q.2.contains(x) by {
            assert(r.3.contains(x));
        }
    }
}

/// The first pass of growing from tile `origin` takes every wire (from
/// `k` on) with an end there, unless it stops early, in which case
/// `origin` itself is queued; each wire it takes has an end on `origin`
/// and its other end queued, and the structure at the end away from
/// `origin` is filed.
pub proof fn lemma_seed_reach(nodes: Seq<PowerNode>, wires: Seq<PowerWire>, origin: Position, k: int, st: SeedState)
    requires
        0 <= k,
        st.0.len() == wires.len(),
    ensures
        ({
            let p = seed_pass(nodes, wires, origin, k, st);
            &&& keeps(st.0, p.0)
            &&& st.4 is None ==> p.1.contains(origin) || forall|j: int|
                k <= j < wires.len() && #[trigger] touches(wires[j], origin) ==> p.0[j]
            &&& forall|j: int|
                0 <= j < wires.len() && #[trigger] newly(st.0, p.0, j) ==> touches(wires[j], origin) && (wires[j].0 == origin
                    || p.1.contains(wires[j].0)) && (wires[j].1 == origin || p.1.contains(wires[j].1)) && (wires[j].0 == origin
                    ==> filed(nodes, wires[j].1, p.2, p.3)) && (wires[j].1 == origin ==> filed(nodes, wires[j].0, p.2, p.3))
            &&& tiles_grow(st.1, p.1)
            &&& ids_grow(st.2, p.2)
            &&& ids_grow(st.3, p.3)
        }),
    decreases wires.len() - k,
{
    let p = seed_pass(nodes, wires, origin, k, st);
    if k < wires.len() && st.4 is None {
        if st.0[k] {
            lemma_seed_reach(nodes, wires, origin, k + 1, st);
            assert(p == seed_pass(nodes, wires, origin, k + 1, st));
            if !p.1.contains(origin) {
                assert forall|j: int| k <= j < wires.len() && #[trigger] touches(wires[j], origin) implies p.0[j] by {
                    if j == k {
                        assert(st.0[k]);
                    }
                }
            }
        } else {
            let w = wires[k];
            let a: SeedState = if w.0 == origin {
                let c = collect_spec(nodes, w.1, st.2, st.3);
                (st.0.update(k, true), st.1.push(w.1), c.0, c.1, st.4)
            } else {
                st
            };
            let b: SeedState = if w.1 == origin {
                let c = collect_spec(nodes, w.0, a.2, a.3);
                (a.0.update(k, true), a.1.push(w.0), c.0, c.1, a.4)
            } else {
                a
            };
            let lr = if w.0 == origin && w.1 == origin && node_id_at(nodes, w.1) is Some
                && node_id_at(nodes, w.0) is Some {
                Some((node_id_at(nodes, w.1)->0, node_id_at(nodes, w.0)->0))
            } else {
                st.4
            };
            let st2: SeedState = (b.0, b.1, b.2, b.3, lr);
            assert(p == seed_pass(nodes, wires, origin, k + 1, st2));
            lemma_seed_reach(nodes, wires, origin, k + 1, st2);
            lemma_collect_files(nodes, w.1, st.2, st.3);
            lemma_collect_files(nodes, w.0, a.2, a.3);
            lemma_push_grows(st.1, w.1);
            lemma_push_grows(a.1, w.0);
            assert(tiles_grow(st.1, a.1) && ids_grow(st.2, a.2) && ids_grow(st.3, a.3));
            assert(tiles_grow(a.1, b.1) && ids_grow(a.2, b.2) && ids_grow(a.3, b.3));
            assert(w.0 == origin ==> filed(nodes, w.1, a.2, a.3));
            if w.0 == origin {
                lemma_filed_grows(nodes, w.1, a.2, a.3, b.2, b.3);
                lemma_filed_grows(nodes, w.1, b.2, b.3, p.2, p.3);
                assert(a.1.contains(w.1));
                assert(b.1.contains(w.1));
            }
            if w.1 == origin {
                lemma_filed_grows(nodes, w.0, b.2, b.3, p.2, p.3);
                assert(b.1.contains(w.0));
            }
            assert(keeps(st.0, b.0)) by {
                assert forall|j: int| 0 <= j < st.0.len() && #[trigger] st.0[j] implies b.0[j] by {
                    assert(a.0[j]);
                }
            }
            assert(keeps(st.0, p.0)) by {
                assert forall|j: int| 0 <= j < st.0.len() && #[trigger] st.0[j] implies p.0[j] by {
                    assert(b.0[j]);
                }
            }
            assert forall|j: int| 0 <= j < wires.len() && #[trigger] newly(st.0, p.0, j) implies touches(wires[j], origin) && (wires[j].0
                == origin || p.1.contains(wires[j].0)) && (wires[j].1 == origin || p.1.contains(wires[j].1)) && (wires[j].0 == origin
                ==> filed(nodes, wires[j].1, p.2, p.3)) && (wires[j].1 == origin ==> filed(nodes, wires[j].0, p.2, p.3)) by {
                if j != k {
                    assert(st2.0[j] == st.0[j]);
                    assert(newly(st2.0, p.0, j));
                } else if touches(w, origin) {
                } else {
                    assert(st2.0[k] == st.0[k]);
                    assert(newly(st2.0, p.0, j));
                }
            }
            if touches(w, origin) {
                assert(b.0[k]);
                assert(p.0[k]);
            }
            assert(st.4 is None ==> p.1.contains(origin) || forall|j: int|
                k <= j < wires.len() && #[trigger] touches(wires[j], origin) ==> p.0[j]) by {
                if lr is Some && st.4 is None {
                    assert(b.1.contains(origin));
                }
            }
            assert forall|x: Position| #[trigger] st.1.contains(x) implies p.1.contains(x) by {
                assert(a.1.contains(x));
                assert(b.1.contains(x));
            }
            assert forall|x: StructureId| #[trigger] st.2.contains(x) implies p.2.contains(x) by {
                assert(a.2.contains(x));
                assert(b.2.contains(x));
            }
            assert forall|x: StructureId| #[trigger] st.3.contains(x) implies p.3.contains(x) by {
                assert(a.3.contains(x));
                assert(b.3.contains(x));
            }
            }
    }
}

/// Whether some wire of `wires` not taken in `checked` runs between the
/// tiles `a` and `b`.
pub open spec fn free_wired(wires: Seq<PowerWire>, checked: Seq<bool>, a: Position, b: Position) -> bool {
    exists|k: int| 0 <= k < wires.len() && !checked[k] && #[trigger] joined(wires[k], a, b)
}

/// Whether consecutive tiles of `path` are joined by wires not taken in
/// `checked`.
pub open spec fn is_free_path(wires: Seq<PowerWire>, checked: Seq<bool>, path: Seq<Position>) -> bool {
    &&& path.len() >= 1
    &&& forall|i: int, j: int|
        0 <= i && j == i + 1 && j < path.len() ==> #[trigger] free_wired(wires, checked, path[i], path[j])
}

proof fn lemma_free_path_closed(wires: Seq<PowerWire>, checked: Seq<bool>, after: Seq<bool>, path: Seq<Position>, n: int)
    requires
        checked.len() == wires.len(),
        keeps(checked, after),
        closed_at(wires, after, path[0]),
        forall|j: int|
            0 <= j < wires.len() && #[trigger] newly(checked, after, j) ==> closed_at(wires, after, wires[j].0) && closed_at(
                wires,
                after,
                wires[j].1,
            ),
        is_free_path(wires, checked, path),
        0 <= n < path.len(),
    ensures
        closed_at(wires, after, path[n]),
    decreases n,
{
    if n > 0 {
        lemma_free_path_closed(wires, checked, after, path, n - 1);
        assert(free_wired(wires, checked, path[n - 1], path[n]));
        let k = choose|k: int| 0 <= k < wires.len() && !checked[k] && #[trigger] joined(wires[k], path[n - 1], path[n]);
        assert(touches(wires[k], path[n - 1]));
        assert(after[k]);
        assert(newly(checked, after, k));
    }
}

/// Growing a network from the structure `nodes[s]` reaches everything
/// wired to it: every wire not taken before that lies on a chain of such
/// wires from its tile is taken, together with every other wire at the
/// tiles of that chain, and the structure at the second end of each wire
/// taken (away from the seed's own tile) is filed among the network's
/// generators and consumers.
pub proof fn lemma_grow_reaches_all(nodes: Seq<PowerNode>, wires: Seq<PowerWire>, checked: Seq<bool>, s: int)
    requires
        0 <= s < nodes.len(),
        checked.len() == wires.len(),
    ensures
        ({
            let origin = nodes[s].position;
            let g = grow_spec(nodes, wires, checked, s);
            &&& keeps(checked, g.1)
            &&& closed_at(wires, g.1, origin)
            &&& forall|j: int|
                0 <= j < wires.len() && #[trigger] newly(checked, g.1, j) ==> closed_at(wires, g.1, wires[j].0) && closed_at(
                    wires,
                    g.1,
                    wires[j].1,
                )
            &&& forall|path: Seq<Position>, i: int|
                #[trigger] is_free_path(wires, checked, path) && path[0] == origin && 0 <= i < path.len() ==> closed_at(
                    wires,
                    g.1,
                    #[trigger] path[i],
                )
            &&& g.0 matches Some(n) ==> forall|j: int|
                0 <= j < wires.len() && #[trigger] newly(checked, g.1, j) && wires[j].1 != origin ==> filed(
                    nodes,
                    wires[j].1,
                    n.1,
                    n.2,
                )
        }),
{
    let origin = nodes[s].position;
    let seed = nodes[s];
    let so: Seq<StructureId> = if seed.source { seq![seed.id] } else { Seq::empty() };
    let si: Seq<StructureId> = if seed.sink { seq![seed.id] } else { Seq::empty() };
    let st: SeedState = (checked, Seq::empty(), so, si, None);
    let p = seed_pass(nodes, wires, origin, 0, st);
    lemma_seed_reach(nodes, wires, origin, 0, st);
    let q = spread(nodes, wires, p.1, p.0, p.2, p.3);
    lemma_spread_reach(nodes, wires, p.1, p.0, p.2, p.3);
    let g = grow_spec(nodes, wires, checked, s);
    assert(g.1 == q.0);
    assert(keeps(checked, q.0)) by {
        assert forall|j: int| 0 <= j < checked.len() && #[trigger] checked[j] implies q.0[j] by {
            assert(p.0[j]);
        }
    }
    if !p.1.contains(origin) {
        assert(closed_at(wires, p.0, origin));
        lemma_closed_kept(wires, p.0, q.0, origin);
    }
    assert forall|j: int| 0 <= j < wires.len() && #[trigger] newly(checked, q.0, j) implies closed_at(wires, q.0, wires[j].0)
        && closed_at(wires, q.0, wires[j].1) && (wires[j].1 != origin ==> filed(nodes, wires[j].1, q.1, q.2)) by {
        if p.0[j] {
            assert(newly(st.0, p.0, j));
            if wires[j].0 != origin {
                assert(p.1.contains(wires[j].0));
            }
            if wires[j].1 != origin {
                assert(p.1.contains(wires[j].1));
                assert(wires[j].0 == origin);
                lemma_filed_grows(nodes, wires[j].1, p.2, p.3, q.1, q.2);
            }
        } else {
            assert(newly(p.0, q.0, j));
        }
    }
    assert forall|path: Seq<Position>, i: int|
        #[trigger] is_free_path(wires, checked, path) && path[0] == origin && 0 <= i < path.len() implies closed_at(
            wires,
            q.0,
            #[trigger] path[i],
        ) by {
        lemma_free_path_closed(wires, checked, q.0, path, i);
    }
}

proof fn lemma_skip_unpowered(nodes: Seq<PowerNode>, wires: Seq<PowerWire>, i: int, s: int, checked: Seq<bool>)
    requires
        0 <= i <= s,
        no_power_before(nodes, s),
    ensures
        networks_from(nodes, wires, i, checked) == networks_from(nodes, wires, s, checked),
    decreases s - i,
{
    if i < s {
        assert(!(nodes[i].source || nodes[i].sink));
        lemma_skip_unpowered(nodes, wires, i + 1, s, checked);
    }
}

/// The first power network is grown from the first structure that
/// produces or consumes electricity, when that one makes a network; it
/// then holds every structure that stands at the second end of a wire
/// whose first end is wired, by any chain of wires, to that structure.
pub proof fn lemma_first_network_complete(nodes: Seq<PowerNode>, wires: Seq<PowerWire>, s: int)
    requires
        first_power(nodes, s),
    ensures
        ({
            let none: Seq<bool> = Seq::new(wires.len(), |i: int| false);
            let origin = nodes[s].position;
            grow_spec(nodes, wires, none, s).0 matches Some(n) ==> {
                &&& power_networks(nodes, wires).len() > 0
                &&& power_networks(nodes, wires)[0] == n
                &&& forall|j: int|
                    0 <= j < wires.len() && #[trigger] linked(wires, origin, wires[j].0) && wires[j].1 != origin ==> filed(
                        nodes,
                        wires[j].1,
                        n.1,
                        n.2,
                    )
            }
        }),
{
    let none: Seq<bool> = Seq::new(wires.len(), |i: int| false);
    let origin = nodes[s].position;
    let g = grow_spec(nodes, wires, none, s);
    lemma_skip_unpowered(nodes, wires, 0, s, none);
    lemma_grow_reaches_all(nodes, wires, none, s);
    if let Some(n) = g.0 {
        assert(power_networks(nodes, wires) == networks_from(nodes, wires, s, none));
        assert(networks_from(nodes, wires, s, none) == seq![n] + networks_from(nodes, wires, s + 1, g.1));
        assert forall|j: int|
            0 <= j < wires.len() && #[trigger] linked(wires, origin, wires[j].0) && wires[j].1 != origin implies filed(
                nodes,
                wires[j].1,
                n.1,
                n.2,
            ) by {
            let path = choose|path: Seq<Position>|
                #[trigger] is_wire_path(wires, path) && path[0] == origin && path[path.len() - 1] == wires[j].0;
            assert forall|a: int, b: int| 0 <= a && b == a + 1 && b < path.len() implies #[trigger] free_wired(
                wires,
                none,
                path[a],
                path[b],
            ) by {
                assert(wired(wires, path[a], path[b]));
                let k = choose|k: int| 0 <= k < wires.len() && #[trigger] joined(wires[k], path[a], path[b]);
                assert(!none[k]);
            }
            assert(is_free_path(wires, none, path));
            let last = path.len() - 1;
            assert(closed_at(wires, g.1, path[last]));
            assert(touches(wires[j], path[last]));
            assert(g.1[j]);
            assert(newly(none, g.1, j));
        }
    }
}

} // verus!
