//! The pipe network of fluid boxes: which boxes touch which.
use crate::structure::Position;
use vstd::prelude::*;

verus! {

/// What the pipe network reads of a structure: its entity number, its
/// tile, and whether it holds a fluid box.
#[derive(Clone, Copy, PartialEq, Eq, Structural, Debug)]
pub struct FluidEntity {
    pub entity: u32,
    pub position: Position,
    pub has_fluid_box: bool,
}

/// The tile next to `p` on side `idx`: left, top, right, bottom.
pub open spec fn side_tile(p: Position, idx: int) -> (int, int) {
    if idx == 0 {
        (p.x - 1, p.y as int)
    } else if idx == 1 {
        (p.x as int, p.y - 1)
    } else if idx == 2 {
        (p.x + 1, p.y as int)
    } else {
        (p.x as int, p.y + 1)
    }
}

/// The first structure of `es`, from index `i` on, standing on tile
/// `(x, y)`.
pub open spec fn first_at_from(es: Seq<FluidEntity>, x: int, y: int, i: int) -> Option<int>
    decreases es.len() - i,
{
    if i < 0 || i >= es.len() {
        None
    } else if es[i].position.x == x && es[i].position.y == y {
        Some(i)
    } else {
        first_at_from(es, x, y, i + 1)
    }
}

/// The connection from `e` on side `idx`, if the first structure on the
/// tile there holds a fluid box.
pub open spec fn side_link(es: Seq<FluidEntity>, e: FluidEntity, idx: int) -> Seq<(u32, u32, u8)> {
    match first_at_from(es, side_tile(e.position, idx).0, side_tile(e.position, idx).1, 0) {
        Some(j) => if es[j].has_fluid_box { seq![(e.entity, es[j].entity, idx as u8)] } else { Seq::empty() },
        None => Seq::empty(),
    }
}

/// The connections of `e`, side by side, if it holds a fluid box.
pub open spec fn links_of(es: Seq<FluidEntity>, e: FluidEntity) -> Seq<(u32, u32, u8)> {
    if e.has_fluid_box {
        side_link(es, e, 0) + side_link(es, e, 1) + side_link(es, e, 2) + side_link(es, e, 3)
    } else {
        Seq::empty()
    }
}

/// The connections of the first `n` structures of `es`, in order.
pub open spec fn connections_upto(es: Seq<FluidEntity>, n: int) -> Seq<(u32, u32, u8)>
    decreases n,
{
    if n <= 0 {
        Seq::empty()
    } else {
        connections_upto(es, n - 1) + links_of(es, es[n - 1])
    }
}

/// Whether every tile next to a structure of `es` has coordinates that
/// fit in `i32`.
pub open spec fn sides_fit(es: Seq<FluidEntity>) -> bool {
    forall|i: int| 0 <= i < es.len() ==> i32::MIN < (#[trigger] es[i]).position.x < i32::MAX
        && i32::MIN < es[i].position.y < i32::MAX
}

proof fn lemma_first_at_from(es: Seq<FluidEntity>, x: int, y: int, i: int)
    requires
        0 <= i,
    ensures
        first_at_from(es, x, y, i) matches Some(j) ==> i <= j < es.len(),
    decreases es.len() - i,
{
    if i < es.len() && !(es[i].position.x == x && es[i].position.y == y) {
        lemma_first_at_from(es, x, y, i + 1);
    }
}

fn find_at(es: &Vec<FluidEntity>, x: i32, y: i32) -> (ret: Option<usize>)
    ensures
        ret matches Some(j) ==> j < es.len(),
        match first_at_from(es@, x as int, y as int, 0) {
            Some(j) => ret matches Some(r) && r == j,
            None => ret is None,
        },
{
    let mut i: usize = 0;
    while i < es.len()
        invariant
            i <= es.len(),
            first_at_from(es@, x as int, y as int, 0) == first_at_from(es@, x as int, y as int, i as int),
        decreases es.len() - i,
    {
        if es[i].position.x == x && es[i].position.y == y {
            return Some(i);
        }
        i += 1;
    }
    None
}

fn push_side_link(es: &Vec<FluidEntity>, e: FluidEntity, idx: u8, x: i32, y: i32, ret: &mut Vec<(u32, u32, u8)>)
    requires
        idx < 4,
        (x as int, y as int) == side_tile(e.position, idx as int),
    ensures
        final(ret)@ == old(ret)@ + side_link(es@, e, idx as int),
{
    let ghost link = side_link(es@, e, idx as int);
    proof {
        lemma_first_at_from(es@, x as int, y as int, 0);
    }
    match find_at(es, x, y) {
        Some(j) => {
            if es[j].has_fluid_box {
                ret.push((e.entity, es[j].entity, idx));
                assert(link =~= seq![(e.entity, es@[j as int].entity, idx)]);
            } else {
                assert(link =~= Seq::<(u32, u32, u8)>::empty());
            }
        },
        None => {
            assert(link =~= Seq::<(u32, u32, u8)>::empty());
        },
    }
    assert(ret@ =~= old(ret)@ + link);
}

/// Lists which fluid boxes touch: for each structure holding one, in
/// order, and each side (left, top, right, bottom), the first structure on
/// the tile there if it holds one too, as `(from, to, side)`.
pub fn list_connections(es: &Vec<FluidEntity>) -> (ret: Vec<(u32, u32, u8)>)
    requires
        sides_fit(es@),
    ensures
        ret@ == connections_upto(es@, es@.len() as int),
{
    let mut ret: Vec<(u32, u32, u8)> = Vec::new();
    let mut i: usize = 0;
    while i < es.len()
        invariant
            sides_fit(es@),
            i <= es.len(),
            ret@ == connections_upto(es@, i as int),
        decreases es.len() - i,
    {
        let e = es[i];
        let ghost before = ret@;
        if e.has_fluid_box {
            assert(i32::MIN < es@[i as int].position.x < i32::MAX);
            let x = e.position.x;
            let y = e.position.y;
            push_side_link(es, e, 0, x - 1, y, &mut ret);
            push_side_link(es, e, 1, x, y - 1, &mut ret);
            push_side_link(es, e, 2, x + 1, y, &mut ret);
            push_side_link(es, e, 3, x, y + 1, &mut ret);
            assert(ret@ =~= before + links_of(es@, e));
        } else {
            assert(ret@ =~= before + links_of(es@, e));
        }
        i += 1;
    }
    ret
}

/// The structure that `entity` is joined to on side `idx` by the
/// connections of `conns`: the last one listed wins.
pub open spec fn joined_on(conns: Seq<(u32, u32, u8)>, entity: u32, idx: int) -> Option<u32>
    decreases conns.len(),
{
    if conns.len() == 0 {
        None
    } else {
        let (from, to, side) = conns.last();
        if from == entity && side == idx {
            Some(to)
        } else {
            joined_on(conns.drop_last(), entity, idx)
        }
    }
}

/// The structures `entity` is joined to on its four sides.
pub fn update_connections(entity: u32, conns: &Vec<(u32, u32, u8)>) -> (ret: [Option<u32>; 4])
    requires
        forall|k: int| 0 <= k < conns.len() && (#[trigger] conns@[k]).0 == entity ==> conns@[k].2 < 4,
    ensures
        forall|idx: int| 0 <= idx < 4 ==> ret@[idx] == joined_on(conns@, entity, idx),
{
    let mut ret: [Option<u32>; 4] = [None, None, None, None];
    let mut k: usize = 0;
    while k < conns.len()
        invariant
            k <= conns.len(),
            forall|j: int| 0 <= j < conns.len() && (#[trigger] conns@[j]).0 == entity ==> conns@[j].2 < 4,
            forall|idx: int| 0 <= idx < 4 ==> ret@[idx] == joined_on(conns@.take(k as int), entity, idx),
        decreases conns.len() - k,
    {
        let (from, to, idx) = conns[k];
        proof {
            assert(conns@.take(k + 1).drop_last() =~= conns@.take(k as int));
            assert(conns@.take(k + 1).last() == conns@[k as int]);
        }
        if from == entity {
            assert(conns@[k as int].0 == entity);
            ret[idx as usize] = Some(to);
        }
        k += 1;
    }
    assert(conns@.take(conns.len() as int) =~= conns@);
    ret
}

} // verus!
