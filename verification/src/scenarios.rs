//! The layouts a game can start from: the default one, and benchmark
//! layouts that add long lines of pipes, inserters and chests, belts with
//! items, or assemblers and electric poles to it.
use crate::assembler::Assembler;
use crate::belts::TransportBelt;
use crate::boiler::Boiler;
use crate::chest::Chest;
use crate::drop_items::DropItem;
use crate::furnace::Furnace;
use crate::ground::placed;
use crate::inserter::Inserter;
use crate::inventory::merged;
use crate::items::{str_equals, ItemType};
use crate::ore_mine::OreMine;
use crate::structure::{Position, Rotation};
use crate::buildings::{contents_of, fresh, kind_of, position_of, Structure};
use crate::world::starting_layout;
use vstd::prelude::*;

verus! {

/// A planned structure: its kind, tile, direction (for belts, inserters
/// and mines) and contents.
pub type Plan = (ItemType, Position, Rotation, Map<ItemType, usize>);

/// Whether structure `s` is what `plan` describes.
pub open spec fn matches_plan(s: Structure, plan: Plan) -> bool {
    &&& kind_of(s) == plan.0
    &&& position_of(s) == plan.1
    &&& contents_of(s) == plan.3
    &&& match s {
        Structure::TransportBelt(b) => b.rotation == plan.2,
        Structure::Inserter(_, i) => i.rotation == plan.2,
        Structure::OreMine(m) => m.rotation == plan.2,
        _ => true,
    }
}

/// Whether the structures `ss` are, in order, what `plans` describe.
pub open spec fn follows(ss: Seq<Structure>, plans: Seq<Plan>) -> bool {
    ss.len() == plans.len() && forall|i: int| 0 <= i < plans.len() ==> matches_plan(#[trigger] ss[i], plans[i])
}

/// The structures of the default layout (see [`starting_layout`]), empty.
pub open spec fn default_plans() -> Seq<Plan> {
    Seq::new(starting_layout().len(), |i: int| (starting_layout()[i].0, starting_layout()[i].1, starting_layout()[i].2, Map::empty()))
}

/// What a straight line of a benchmark layout holds on each tile.
#[derive(Clone, Copy, PartialEq, Eq, Structural, Debug)]
pub enum LinePattern {
    /// A pipe on every tile.
    Pipes,
    /// A belt facing the direction on every tile, with an item of the kind
    /// lying on it.
    Belts(Rotation, ItemType),
    /// Chests on even tiles, holding one item of the kind if any, and
    /// inserters facing the direction on odd tiles.
    Inserters(Rotation, Option<ItemType>),
    /// Assemblers on even tiles and electric poles on odd tiles.
    PoweredAssemblers,
}

/// The tile of coordinate `v` on a line at `fixed`: a column when
/// `vertical`, a row otherwise.
pub open spec fn line_position(v: int, fixed: int, vertical: bool) -> Position {
    if vertical {
        Position { x: fixed as i32, y: v as i32 }
    } else {
        Position { x: v as i32, y: fixed as i32 }
    }
}

/// What pattern `p` puts on tile `pos` at coordinate `v` of its line.
pub open spec fn line_plan(p: LinePattern, pos: Position, v: int) -> Plan {
    match p {
        LinePattern::Pipes => (ItemType::Pipe, pos, Rotation::Left, Map::empty()),
        LinePattern::Belts(r, _) => (ItemType::TransportBelt, pos, r, Map::empty()),
        LinePattern::Inserters(r, ore) => if v % 2 == 0 {
            (ItemType::Chest, pos, Rotation::Left, match ore {
                Some(t) => map![t => 1usize],
                None => Map::empty(),
            })
        } else {
            (ItemType::Inserter, pos, r, Map::empty())
        },
        LinePattern::PoweredAssemblers => if v % 2 == 0 {
            (ItemType::Assembler, pos, Rotation::Left, Map::empty())
        } else {
            (ItemType::ElectPole, pos, Rotation::Left, Map::empty())
        },
    }
}

/// The structures of a line of pattern `p` over coordinates `from` to
/// `to` (both included) at `fixed`.
pub open spec fn line_plans(p: LinePattern, from: int, to: int, fixed: int, vertical: bool) -> Seq<Plan> {
    Seq::new((to - from + 1) as nat, |k: int| line_plan(p, line_position(from + k, fixed, vertical), from + k))
}

/// The items lying on a line of pattern `p` over coordinates `from` to
/// `to` at `fixed`: one at the centre of each tile of a belt line.
pub open spec fn line_items(p: LinePattern, from: int, to: int, fixed: int, vertical: bool) -> Seq<DropItem> {
    match p {
        LinePattern::Belts(_, t) => Seq::new(
            (to - from + 1) as nat,
            |k: int| placed(t, line_position(from + k, fixed, vertical).x as int, line_position(from + k, fixed, vertical).y as int),
        ),
        _ => Seq::empty(),
    }
}

/// The four lines that a benchmark layout adds around a square: along the
/// top row, the bottom row, the left column and the right column.
pub open spec fn square_plans(top: LinePattern, bottom: LinePattern, left: LinePattern, right: LinePattern, first: (int, int), second: (int, int), third: (int, int), fourth: (int, int)) -> Seq<Plan> {
    line_plans(top, first.0, first.1, 10, false) + line_plans(bottom, second.0, second.1, 100, false) + line_plans(
        left,
        third.0,
        third.1,
        10,
        true,
    ) + line_plans(right, fourth.0, fourth.1, 100, true)
}

/// The items lying on the four lines of [`square_plans`].
pub open spec fn square_items(top: LinePattern, bottom: LinePattern, left: LinePattern, right: LinePattern, first: (int, int), second: (int, int), third: (int, int), fourth: (int, int)) -> Seq<DropItem> {
    line_items(top, first.0, first.1, 10, false) + line_items(bottom, second.0, second.1, 100, false) + line_items(
        left,
        third.0,
        third.1,
        10,
        true,
    ) + line_items(right, fourth.0, fourth.1, 100, true)
}

/// The structures of the pipe benchmark: pipes around the square.
pub open spec fn pipe_bench_plans() -> Seq<Plan> {
    default_plans() + square_plans(
        LinePattern::Pipes,
        LinePattern::Pipes,
        LinePattern::Pipes,
        LinePattern::Pipes,
        (11, 100),
        (10, 99),
        (10, 99),
        (11, 100),
    )
}

/// The structures of the inserter benchmark: chests and inserters around
/// the square, the chests of the top row holding iron ore and those of
/// the bottom row coal, the inserters turning clockwise around it.
pub open spec fn inserter_bench_plans() -> Seq<Plan> {
    default_plans() + square_plans(
        LinePattern::Inserters(Rotation::Right, Some(ItemType::IronOre)),
        LinePattern::Inserters(Rotation::Left, Some(ItemType::CoalOre)),
        LinePattern::Inserters(Rotation::Top, None),
        LinePattern::Inserters(Rotation::Bottom, None),
        (10, 100),
        (10, 100),
        (11, 99),
        (11, 99),
    )
}

/// The belt lines of the transport benchmark, each carrying one kind of
/// ore.
pub open spec fn transport_lines() -> (LinePattern, LinePattern, LinePattern, LinePattern) {
    (
        LinePattern::Belts(Rotation::Left, ItemType::CoalOre),
        LinePattern::Belts(Rotation::Right, ItemType::IronOre),
        LinePattern::Belts(Rotation::Bottom, ItemType::CopperOre),
        LinePattern::Belts(Rotation::Top, ItemType::StoneOre),
    )
}

/// The structures of the transport benchmark: belts around the square.
pub open spec fn transport_bench_plans() -> Seq<Plan> {
    let l = transport_lines();
    default_plans() + square_plans(l.0, l.1, l.2, l.3, (11, 100), (10, 99), (10, 99), (11, 100))
}

/// The items of the transport benchmark: one on each belt.
pub open spec fn transport_bench_items() -> Seq<DropItem> {
    let l = transport_lines();
    square_items(l.0, l.1, l.2, l.3, (11, 100), (10, 99), (10, 99), (11, 100))
}

/// The structures of the electric benchmark: assemblers and electric
/// poles around the square.
pub open spec fn electric_bench_plans() -> Seq<Plan> {
    default_plans() + square_plans(
        LinePattern::PoweredAssemblers,
        LinePattern::PoweredAssemblers,
        LinePattern::PoweredAssemblers,
        LinePattern::PoweredAssemblers,
        (10, 100),
        (10, 100),
        (11, 99),
        (11, 99),
    )
}

/// The structures and items of the layout named `name`: `default`,
/// `pipe_bench`, `inserter_bench`, `transport_bench` or `electric_bench`.
pub open spec fn scenario_plan(name: Seq<char>) -> Option<(Seq<Plan>, Seq<DropItem>)> {
    if name == "default"@ {
        Some((default_plans(), Seq::empty()))
    } else if name == "pipe_bench"@ {
        Some((pipe_bench_plans(), Seq::empty()))
    } else if name == "inserter_bench"@ {
        Some((inserter_bench_plans(), Seq::empty()))
    } else if name == "transport_bench"@ {
        Some((transport_bench_plans(), transport_bench_items()))
    } else if name == "electric_bench"@ {
        Some((electric_bench_plans(), Seq::empty()))
    } else {
        None
    }
}

/// The structure that pattern `p` puts on tile `pos` at coordinate `v`.
fn line_structure(p: LinePattern, pos: Position, v: i32) -> (ret: Structure)
    requires
        0 <= v,
    ensures
        matches_plan(ret, line_plan(p, pos, v as int)),
{
    match p {
        LinePattern::Pipes => Structure::Utility(ItemType::Pipe, pos),
        LinePattern::Belts(r, _) => Structure::TransportBelt(TransportBelt::new(pos, r)),
        LinePattern::Inserters(r, ore) => {
            if v % 2 == 0 {
                let mut chest = Chest::new(&pos);
                match ore {
                    Some(t) => {
                        chest.inventory.add_item(&t);
                        assert(chest.inventory@ =~= map![t => 1usize]);
                    },
                    None => {},
                }
                Structure::Chest(chest)
            } else {
                Structure::Inserter(pos, Inserter::new(r))
            }
        },
        LinePattern::PoweredAssemblers => {
            if v % 2 == 0 {
                let a = Assembler::new(&pos);
                assert(merged(a.factory.input_inventory@, a.factory.output_inventory@) =~= Map::empty());
                Structure::Assembler(a)
            } else {
                Structure::Utility(ItemType::ElectPole, pos)
            }
        },
    }
}

/// Appends a line of pattern `p` over coordinates `from` to `to` (both
/// included) at `fixed` to `ss`, and the items lying on it to `items`.
fn push_line(ss: &mut Vec<Structure>, items: &mut Vec<DropItem>, p: LinePattern, from: i32, to: i32, fixed: i32, vertical: bool)
    requires
        0 < from <= to <= 1000,
        0 < fixed <= 1000,
    ensures
        final(ss)@ == old(ss)@ + final(ss)@.skip(old(ss)@.len() as int),
        follows(final(ss)@.skip(old(ss)@.len() as int), line_plans(p, from as int, to as int, fixed as int, vertical)),
        final(items)@ == old(items)@ + line_items(p, from as int, to as int, fixed as int, vertical),
{
    let ghost ss0 = ss@;
    let ghost items0 = items@;
    let ghost plans = line_plans(p, from as int, to as int, fixed as int, vertical);
    let ghost placed_items = line_items(p, from as int, to as int, fixed as int, vertical);
    let mut v: i32 = from;
    while v <= to
        invariant
            0 < from <= v <= to + 1,
            to <= 1000,
            0 < fixed <= 1000,
            ss@.len() == ss0.len() + (v - from),
            forall|i: int| 0 <= i < ss0.len() ==> ss@[i] == ss0[i],
            forall|k: int| 0 <= k < v - from ==> matches_plan(#[trigger] ss@[ss0.len() + k], plans[k]),
            items@ == items0 + placed_items.take(if p is Belts { v - from } else { 0 }),
            plans == line_plans(p, from as int, to as int, fixed as int, vertical),
            placed_items == line_items(p, from as int, to as int, fixed as int, vertical),
        decreases to + 1 - v,
    {
        let pos = if vertical {
            Position { x: fixed, y: v }
        } else {
            Position { x: v, y: fixed }
        };
        let s = line_structure(p, pos, v);
        ss.push(s);
        match p {
            LinePattern::Belts(_, t) => {
                items.push(DropItem::new(t, pos.x, pos.y));
                proof {
                    assert(placed_items.take(v + 1 - from) =~= placed_items.take(v - from).push(placed_items[v - from]));
                }
            },
            _ => {},
        }
        proof {
            assert(ss@[ss0.len() + (v - from)] == s);
            assert forall|k: int| 0 <= k < v + 1 - from implies matches_plan(#[trigger] ss@[ss0.len() + k], plans[k]) by {
                if k < v - from {
                } else {
                    assert(k == v - from);
                }
            }
        }
        v = v + 1;
    }
    proof {
        let added = ss@.skip(ss0.len() as int);
        assert(ss@ =~= ss0 + added);
        assert forall|i: int| 0 <= i < plans.len() implies matches_plan(#[trigger] added[i], plans[i]) by {
            assert(added[i] == ss@[ss0.len() + i]);
        }
        if p is Belts {
            assert(placed_items.take(to + 1 - from) =~= placed_items);
        } else {
            assert(placed_items =~= Seq::<DropItem>::empty());
            assert(placed_items.take(0) =~= Seq::<DropItem>::empty());
        }
    }
}

/// Structures that follow two lists of plans, one after the other, follow
/// the joined list.
proof fn lemma_follows_concat(a: Seq<Structure>, pa: Seq<Plan>, b: Seq<Structure>, pb: Seq<Plan>)
    requires
        follows(a, pa),
        follows(b, pb),
    ensures
        follows(a + b, pa + pb),
{
    assert forall|i: int| 0 <= i < (pa + pb).len() implies matches_plan(#[trigger] (a + b)[i], (pa + pb)[i]) by {
        if i < pa.len() {
            assert((a + b)[i] == a[i]);
        } else {
            assert((a + b)[i] == b[i - pa.len()]);
        }
    }
}

/// Appends the four lines of [`square_plans`] to `ss`, and the items lying
/// on them to `items`.
fn push_square(
    ss: &mut Vec<Structure>,
    items: &mut Vec<DropItem>,
    top: LinePattern,
    bottom: LinePattern,
    left: LinePattern,
    right: LinePattern,
    first: (i32, i32),
    second: (i32, i32),
    third: (i32, i32),
    fourth: (i32, i32),
)
    requires
        0 < first.0 <= first.1 <= 1000,
        0 < second.0 <= second.1 <= 1000,
        0 < third.0 <= third.1 <= 1000,
        0 < fourth.0 <= fourth.1 <= 1000,
    ensures
        final(ss)@ == old(ss)@ + final(ss)@.skip(old(ss)@.len() as int),
        follows(
            final(ss)@.skip(old(ss)@.len() as int),
            square_plans(
                top,
                bottom,
                left,
                right,
                (first.0 as int, first.1 as int),
                (second.0 as int, second.1 as int),
                (third.0 as int, third.1 as int),
                (fourth.0 as int, fourth.1 as int),
            ),
        ),
        final(items)@ == old(items)@ + square_items(
            top,
            bottom,
            left,
            right,
            (first.0 as int, first.1 as int),
            (second.0 as int, second.1 as int),
            (third.0 as int, third.1 as int),
            (fourth.0 as int, fourth.1 as int),
        ),
{
    let ghost s0 = ss@;
    push_line(ss, items, top, first.0, first.1, 10, false);
    let ghost s1 = ss@;
    push_line(ss, items, bottom, second.0, second.1, 100, false);
    let ghost s2 = ss@;
    push_line(ss, items, left, third.0, third.1, 10, true);
    let ghost s3 = ss@;
    push_line(ss, items, right, fourth.0, fourth.1, 100, true);
    proof {
        let a = s1.skip(s0.len() as int);
        let b = s2.skip(s1.len() as int);
        let c = s3.skip(s2.len() as int);
        let d = ss@.skip(s3.len() as int);
        assert(ss@.skip(s0.len() as int) =~= a + b + c + d);
        lemma_follows_concat(a, line_plans(top, first.0 as int, first.1 as int, 10, false), b, line_plans(bottom, second.0 as int, second.1 as int, 100, false));
        lemma_follows_concat(
            a + b,
            line_plans(top, first.0 as int, first.1 as int, 10, false) + line_plans(bottom, second.0 as int, second.1 as int, 100, false),
            c,
            line_plans(left, third.0 as int, third.1 as int, 10, true),
        );
        lemma_follows_concat(
            a + b + c,
            line_plans(top, first.0 as int, first.1 as int, 10, false) + line_plans(bottom, second.0 as int, second.1 as int, 100, false)
                + line_plans(left, third.0 as int, third.1 as int, 10, true),
            d,
            line_plans(right, fourth.0 as int, fourth.1 as int, 100, true),
        );
        assert(ss@ =~= s0 + ss@.skip(s0.len() as int));
        assert(items@ =~= old(items)@ + square_items(
            top,
            bottom,
            left,
            right,
            (first.0 as int, first.1 as int),
            (second.0 as int, second.1 as int),
            (third.0 as int, third.1 as int),
            (fourth.0 as int, fourth.1 as int),
        ));
    }
}

/// The default layout: three belts and a mine feeding a furnace, an
/// assembler, and a water well, boiler and steam engine (see
/// [`starting_layout`]), all fresh; nothing lies on the ground.
pub fn default_scenario() -> (ret: (Vec<Structure>, Vec<DropItem>))
    ensures
        ret.0@.len() == starting_layout().len(),
        forall|i: int| 0 <= i < starting_layout().len() ==> fresh(
            #[trigger] ret.0@[i],
            starting_layout()[i].0,
            starting_layout()[i].1,
            starting_layout()[i].2,
        ),
        follows(ret.0@, default_plans()),
        ret.1@ == Seq::<DropItem>::empty(),
{
    let mut structures: Vec<Structure> = Vec::new();
    structures.push(Structure::TransportBelt(TransportBelt::new(Position { x: 10, y: 3 }, Rotation::Left)));
    structures.push(Structure::TransportBelt(TransportBelt::new(Position { x: 11, y: 3 }, Rotation::Left)));
    structures.push(Structure::TransportBelt(TransportBelt::new(Position { x: 12, y: 3 }, Rotation::Left)));
    structures.push(Structure::OreMine(OreMine::new(12, 2, Rotation::Bottom)));
    let furnace = Furnace::new(&Position { x: 8, y: 3 });
    assert(merged(merged(furnace.input_inventory@, furnace.output_inventory@), furnace.burner_inventory@) =~= Map::empty());
    structures.push(Structure::Furnace(furnace));
    let assembler = Assembler::new(&Position { x: 6, y: 3 });
    assert(merged(assembler.factory.input_inventory@, assembler.factory.output_inventory@) =~= Map::empty());
    structures.push(Structure::Assembler(assembler));
    structures.push(Structure::Utility(ItemType::WaterWell, Position { x: 14, y: 5 }));
    structures.push(Structure::Boiler(Boiler::new(&Position { x: 13, y: 5 })));
    structures.push(Structure::Utility(ItemType::SteamEngine, Position { x: 12, y: 5 }));
    assert(structures@.len() == 9);
    (structures, Vec::new())
}

/// The default layout with pipes around the square from tile (10, 10) to
/// tile (100, 100).
pub fn pipe_bench() -> (ret: (Vec<Structure>, Vec<DropItem>))
    ensures
        follows(ret.0@, pipe_bench_plans()),
        ret.1@ == Seq::<DropItem>::empty(),
{
    let (mut ss, mut items) = default_scenario();
    let ghost s0 = ss@;
    push_square(&mut ss, &mut items, LinePattern::Pipes, LinePattern::Pipes, LinePattern::Pipes, LinePattern::Pipes, (11, 100), (10, 99), (10, 99), (11, 100));
    proof {
        lemma_follows_concat(s0, default_plans(), ss@.skip(s0.len() as int), pipe_bench_plans().skip(9));
        assert(pipe_bench_plans() =~= default_plans() + pipe_bench_plans().skip(9));
        assert(items@ =~= Seq::<DropItem>::empty());
    }
    (ss, items)
}

/// The default layout with chests and inserters around the square from
/// tile (10, 10) to tile (100, 100) (see [`inserter_bench_plans`]).
pub fn inserter_bench() -> (ret: (Vec<Structure>, Vec<DropItem>))
    ensures
        follows(ret.0@, inserter_bench_plans()),
        ret.1@ == Seq::<DropItem>::empty(),
{
    let (mut ss, mut items) = default_scenario();
    let ghost s0 = ss@;
    push_square(
        &mut ss,
        &mut items,
        LinePattern::Inserters(Rotation::Right, Some(ItemType::IronOre)),
        LinePattern::Inserters(Rotation::Left, Some(ItemType::CoalOre)),
        LinePattern::Inserters(Rotation::Top, None),
        LinePattern::Inserters(Rotation::Bottom, None),
        (10, 100),
        (10, 100),
        (11, 99),
        (11, 99),
    );
    proof {
        lemma_follows_concat(s0, default_plans(), ss@.skip(s0.len() as int), inserter_bench_plans().skip(9));
        assert(inserter_bench_plans() =~= default_plans() + inserter_bench_plans().skip(9));
        assert(items@ =~= Seq::<DropItem>::empty());
    }
    (ss, items)
}

/// The default layout with belts around the square from tile (10, 10) to
/// tile (100, 100), an item on each (see [`transport_bench_items`]).
pub fn transport_bench() -> (ret: (Vec<Structure>, Vec<DropItem>))
    ensures
        follows(ret.0@, transport_bench_plans()),
        ret.1@ == transport_bench_items(),
{
    let (mut ss, mut items) = default_scenario();
    let ghost s0 = ss@;
    push_square(
        &mut ss,
        &mut items,
        LinePattern::Belts(Rotation::Left, ItemType::CoalOre),
        LinePattern::Belts(Rotation::Right, ItemType::IronOre),
        LinePattern::Belts(Rotation::Bottom, ItemType::CopperOre),
        LinePattern::Belts(Rotation::Top, ItemType::StoneOre),
        (11, 100),
        (10, 99),
        (10, 99),
        (11, 100),
    );
    proof {
        lemma_follows_concat(s0, default_plans(), ss@.skip(s0.len() as int), transport_bench_plans().skip(9));
        assert(transport_bench_plans() =~= default_plans() + transport_bench_plans().skip(9));
        assert(items@ =~= transport_bench_items());
    }
    (ss, items)
}

/// The default layout with assemblers and electric poles around the
/// square from tile (10, 10) to tile (100, 100).
pub fn electric_bench() -> (ret: (Vec<Structure>, Vec<DropItem>))
    ensures
        follows(ret.0@, electric_bench_plans()),
        ret.1@ == Seq::<DropItem>::empty(),
{
    let (mut ss, mut items) = default_scenario();
    let ghost s0 = ss@;
    push_square(
        &mut ss,
        &mut items,
        LinePattern::PoweredAssemblers,
        LinePattern::PoweredAssemblers,
        LinePattern::PoweredAssemblers,
        LinePattern::PoweredAssemblers,
        (10, 100),
        (10, 100),
        (11, 99),
        (11, 99),
    );
    proof {
        lemma_follows_concat(s0, default_plans(), ss@.skip(s0.len() as int), electric_bench_plans().skip(9));
        assert(electric_bench_plans() =~= default_plans() + electric_bench_plans().skip(9));
        assert(items@ =~= Seq::<DropItem>::empty());
    }
    (ss, items)
}

/// The layout named `name` (see [`scenario_plan`]); fails for any other
/// name.
pub fn select_scenario(name: &str) -> (ret: Result<(Vec<Structure>, Vec<DropItem>), ()>)
    ensures
        match scenario_plan(name@) {
            Some((plans, items)) => (ret matches Ok((ss, its)) && follows(ss@, plans) && its@ == items),
            None => ret is Err,
        },
{
    if str_equals(name, "default") {
        let (ss, items) = default_scenario();
        return Ok((ss, items));
    }
    if str_equals(name, "pipe_bench") {
        proof {
            reveal_strlit("default");
            reveal_strlit("pipe_bench");
        }
        return Ok(pipe_bench());
    }
    if str_equals(name, "inserter_bench") {
        proof {
            reveal_strlit("default");
            reveal_strlit("pipe_bench");
            reveal_strlit("inserter_bench");
        }
        return Ok(inserter_bench());
    }
    if str_equals(name, "transport_bench") {
        proof {
            reveal_strlit("default");
            reveal_strlit("pipe_bench");
            reveal_strlit("inserter_bench");
            reveal_strlit("transport_bench");
        }
        return Ok(transport_bench());
    }
    if str_equals(name, "electric_bench") {
        proof {
            reveal_strlit("default");
            reveal_strlit("pipe_bench");
            reveal_strlit("inserter_bench");
            reveal_strlit("transport_bench");
            reveal_strlit("electric_bench");
        }
        return Ok(electric_bench());
    }
    Err(())
}

} // verus!
