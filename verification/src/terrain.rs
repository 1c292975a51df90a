//! Map tiles: ore deposits, water, and the chunks that the map is stored in.
use crate::items::ItemType;
use crate::structure::Position;
use vstd::prelude::*;

verus! {

/// The side of a chunk, in tiles.
pub const CHUNK_SIZE: usize = 16;

/// The side of a chunk, in tiles.
pub const CHUNK_SIZE_I: i32 = 16;

/// The number of tiles in a chunk.
pub const CHUNK_SIZE2: usize = 256;

/// A kind of ore deposit.
#[derive(Clone, Copy, PartialEq, Eq, Structural, Debug)]
pub enum Ore {
    Iron,
    Copper,
    Coal,
    Stone,
}

/// The item that mining an ore gives.
pub open spec fn ore_item(ore: Ore) -> ItemType {
    match ore {
        Ore::Iron => ItemType::IronOre,
        Ore::Copper => ItemType::CopperOre,
        Ore::Coal => ItemType::CoalOre,
        Ore::Stone => ItemType::StoneOre,
    }
}

impl Ore {
    /// The item that mining this ore gives.
    pub fn to_item_type(&self) -> (ret: ItemType)
        ensures
            ret == ore_item(*self),
    {
        match self {
            Ore::Iron => ItemType::IronOre,
            Ore::Copper => ItemType::CopperOre,
            Ore::Coal => ItemType::CoalOre,
            Ore::Stone => ItemType::StoneOre,
        }
    }
}

/// An ore deposit: its kind and the amount left.
#[derive(Clone, Copy, PartialEq, Eq, Structural, Debug)]
pub struct OreValue(pub Ore, pub u32);

/// One map tile.
#[derive(Clone, Copy, PartialEq, Eq, Structural, Debug)]
pub struct Cell {
    pub water: bool,
    pub ore: Option<OreValue>,
    /// Which edge picture of the water border the tile shows.
    pub image: u8,
    /// Which grass picture the tile shows.
    pub grass_image: u8,
}

impl Cell {
    /// A dry tile without ore.
    pub fn new() -> (ret: Self)
        ensures
            !ret.water,
            ret.ore is None,
            ret.image == 0,
            ret.grass_image == 0,
    {
        Cell { water: false, ore: None, image: 0, grass_image: 0 }
    }

    /// A freshly generated tile: water, or dry land with the ore of which
    /// the noise gives the largest amount (see [`ore_from_amounts`]).
    pub fn generated(water: bool, iron: u32, copper: u32, coal: u32, stone: u32) -> (ret: Self)
        ensures
            ret.water == water,
            ret.ore == (if water { None } else { ore_from_amounts(iron, copper, coal, stone) }),
            ret.image == 0,
            ret.grass_image == 0,
    {
        let mut cell = Cell::new();
        cell.water = water;
        if !water {
            cell.ore = pick_ore(iron, copper, coal, stone);
        }
        cell
    }

    /// The item that mining this tile gives, if it has ore.
    pub fn get_ore_type(&self) -> (ret: Option<ItemType>)
        ensures
            ret == match self.ore {
                Some(OreValue(ore, _)) => Some(ore_item(ore)),
                None => None,
            },
    {
        match &self.ore {
            Some(v) => Some(v.0.to_item_type()),
            None => None,
        }
    }
}

/// The ore with the largest of the amounts of iron, copper, coal and
/// stone, the later kind in that order on a tie; none when the largest
/// amount is zero.
pub open spec fn ore_from_amounts(iron: u32, copper: u32, coal: u32, stone: u32) -> Option<OreValue> {
    let best = if stone >= iron && stone >= copper && stone >= coal {
        OreValue(Ore::Stone, stone)
    } else if coal >= iron && coal >= copper {
        OreValue(Ore::Coal, coal)
    } else if copper >= iron {
        OreValue(Ore::Copper, copper)
    } else {
        OreValue(Ore::Iron, iron)
    };
    if 0 < best.1 { Some(best) } else { None }
}

/// The amount of ore `o` among the amounts of iron, copper, coal and stone.
pub open spec fn amount_of(o: Ore, iron: u32, copper: u32, coal: u32, stone: u32) -> u32 {
    match o {
        Ore::Iron => iron,
        Ore::Copper => copper,
        Ore::Coal => coal,
        Ore::Stone => stone,
    }
}

/// The ore picked for a tile is one of largest amount, carrying that
/// amount; a later kind (in the order iron, copper, coal, stone) wins a
/// tie; and a tile gets no ore exactly when every amount is zero.
pub proof fn lemma_picked_ore_is_largest(iron: u32, copper: u32, coal: u32, stone: u32)
    ensures
        match ore_from_amounts(iron, copper, coal, stone) {
            Some(OreValue(o, v)) => {
                &&& v == amount_of(o, iron, copper, coal, stone)
                &&& 0 < v
                &&& v >= iron && v >= copper && v >= coal && v >= stone
                &&& forall|later: Ore| ore_rank(o) < ore_rank(later) ==> amount_of(later, iron, copper, coal, stone) < v
            },
            None => iron == 0 && copper == 0 && coal == 0 && stone == 0,
        },
{
}

/// The place of an ore in the order iron, copper, coal, stone.
pub open spec fn ore_rank(o: Ore) -> int {
    match o {
        Ore::Iron => 0,
        Ore::Copper => 1,
        Ore::Coal => 2,
        Ore::Stone => 3,
    }
}

/// The ore of a dry tile, from the amounts of each kind that the noise
/// gives it (see [`ore_from_amounts`]).
pub fn pick_ore(iron: u32, copper: u32, coal: u32, stone: u32) -> (ret: Option<OreValue>)
    ensures
        ret == ore_from_amounts(iron, copper, coal, stone),
        ret matches Some(OreValue(o, v)) ==> v == amount_of(o, iron, copper, coal, stone) && v >= iron && v >= copper && v
            >= coal && v >= stone && 0 < v,
        ret is None <==> (iron == 0 && copper == 0 && coal == 0 && stone == 0),
{
    proof {
        lemma_picked_ore_is_largest(iron, copper, coal, stone);
    }
    let candidates = [OreValue(Ore::Iron, iron), OreValue(Ore::Copper, copper), OreValue(Ore::Coal, coal), OreValue(Ore::Stone, stone)];
    let mut best = candidates[0];
    let mut k: usize = 1;
    while k < 4
        invariant
            1 <= k <= 4,
            candidates@ == seq![OreValue(Ore::Iron, iron), OreValue(Ore::Copper, copper), OreValue(Ore::Coal, coal), OreValue(Ore::Stone, stone)],
            best == (if k == 1 {
                OreValue(Ore::Iron, iron)
            } else if k == 2 {
                if copper >= iron { OreValue(Ore::Copper, copper) } else { OreValue(Ore::Iron, iron) }
            } else if k == 3 {
                if coal >= iron && coal >= copper {
                    OreValue(Ore::Coal, coal)
                } else if copper >= iron {
                    OreValue(Ore::Copper, copper)
                } else {
                    OreValue(Ore::Iron, iron)
                }
            } else {
                if stone >= iron && stone >= copper && stone >= coal {
                    OreValue(Ore::Stone, stone)
                } else if coal >= iron && coal >= copper {
                    OreValue(Ore::Coal, coal)
                } else if copper >= iron {
                    OreValue(Ore::Copper, copper)
                } else {
                    OreValue(Ore::Iron, iron)
                }
            }),
        decreases 4 - k,
    {
        if candidates[k].1 >= best.1 {
            best = candidates[k];
        }
        k += 1;
    }
    if 0 < best.1 { Some(best) } else { None }
}

/// Mines one unit of ore of the kind that gives `item` from a tile, and
/// returns the amount left; a deposit that runs out goes away. Nothing
/// happens (and `None` is returned) when the tile holds no such ore.
pub fn remove_ore_from_tile(cell: &mut Cell, item: &ItemType) -> (ret: Option<u32>)
    ensures
        final(cell).water == old(cell).water,
        final(cell).image == old(cell).image,
        final(cell).grass_image == old(cell).grass_image,
        match old(cell).ore {
            Some(OreValue(ore, val)) => if ore_item(ore) == *item && val > 0 {
                &&& ret == Some((val - 1) as u32)
                &&& final(cell).ore == if val == 1 { None } else { Some(OreValue(ore, (val - 1) as u32)) }
            } else {
                &&& ret is None
                &&& final(cell).ore == old(cell).ore
            },
            None => ret is None && final(cell).ore is None,
        },
{
    match cell.ore {
        Some(OreValue(ore, val)) => {
            if ore.to_item_type() != *item {
                return None;
            }
            if 0 < val {
                let left = val - 1;
                if left == 0 {
                    cell.ore = None;
                } else {
                    cell.ore = Some(OreValue(ore, left));
                }
                Some(left)
            } else {
                None
            }
        },
        None => None,
    }
}

/// The chunk holding a tile, and the tile's index within the chunk.
pub open spec fn tile_location_spec(position: Position) -> (int, int, int) {
    (
        position.x as int / 16,
        position.y as int / 16,
        position.x as int % 16 + position.y as int % 16 * 16,
    )
}

/// The chunk holding a tile, and the tile's index within the chunk.
pub fn tile_location(position: &Position) -> (ret: (Position, usize))
    ensures
        ret.0.x == tile_location_spec(*position).0,
        ret.0.y == tile_location_spec(*position).1,
        ret.1 == tile_location_spec(*position).2,
        ret.1 < CHUNK_SIZE2,
{
    let (div, rem) = position.div_mod(CHUNK_SIZE_I);
    proof {
        assert(0 <= rem.x < 16 && 0 <= rem.y < 16);
    }
    (div, (rem.x + rem.y * CHUNK_SIZE_I) as usize)
}

/// Every tile has its own place: chunk and index give back the tile.
pub proof fn lemma_tile_location_inverse(position: Position)
    ensures
        ({
            let (cx, cy, i) = tile_location_spec(position);
            &&& 0 <= i < CHUNK_SIZE2
            &&& position.x == cx * 16 + i % 16
            &&& position.y == cy * 16 + i / 16
        }),
{
    let rx = position.x as int % 16;
    let ry = position.y as int % 16;
    assert(0 <= rx < 16 && 0 <= ry < 16);
    assert((rx + ry * 16) % 16 == rx && (rx + ry * 16) / 16 == ry) by (nonlinear_arith)
        requires
            0 <= rx < 16,
            0 <= ry < 16;
}

/// The edge picture of a dry tile from which of its neighbours are water:
/// the sides (left, top, right, bottom as bits 0 to 3) when any is water,
/// else the corners (top left, top right, bottom right, bottom left as bits
/// 0 to 3, with bit 4 set) when any is water, else 0.
pub open spec fn back_image_spec(
    l: bool,
    t: bool,
    r: bool,
    b: bool,
    lt: bool,
    rt: bool,
    rb: bool,
    lb: bool,
) -> int {
    let neighbor = (if l { 1int } else { 0 }) + (if t { 2int } else { 0 }) + (if r { 4int } else { 0 }) + (if b { 8int } else { 0 });
    let diagonal = (if lt { 1int } else { 0 }) + (if rt { 2int } else { 0 }) + (if rb { 4int } else { 0 }) + (if lb { 8int } else { 0 });
    if neighbor != 0 {
        neighbor
    } else if diagonal != 0 {
        diagonal + 16
    } else {
        0
    }
}

/// The edge picture of a dry tile from which of its neighbours are water.
pub fn back_image(l: bool, t: bool, r: bool, b: bool, lt: bool, rt: bool, rb: bool, lb: bool) -> (ret: u8)
    ensures
        ret == back_image_spec(l, t, r, b, lt, rt, rb, lb),
{
    let l = l as u8;
    let t = t as u8;
    let r = r as u8;
    let b = b as u8;
    let lt = lt as u8;
    let rt = rt as u8;
    let rb = rb as u8;
    let lb = lb as u8;
    let neighbor = l | (t << 1) | (r << 2) | (b << 3);
    let diagonal = lt | (rt << 1) | (rb << 2) | (lb << 3);
    proof {
        assert(l <= 1 && t <= 1 && r <= 1 && b <= 1);
        assert(l <= 1 && t <= 1 && r <= 1 && b <= 1 ==> (l | (t << 1) | (r << 2) | (b << 3)) == l + 2 * t + 4 * r + 8 * b) by (bit_vector);
        assert(lt <= 1 && rt <= 1 && rb <= 1 && lb <= 1 ==> (lt | (rt << 1) | (rb << 2) | (lb << 3)) == lt + 2 * rt + 4 * rb + 8 * lb) by (bit_vector);
        assert(lt <= 1 && rt <= 1 && rb <= 1 && lb <= 1 ==> ((lt | (rt << 1) | (rb << 2) | (lb << 3)) | (1u8 << 4u8)) == lt + 2 * rt + 4 * rb + 8 * lb + 16) by (bit_vector);
    }
    if neighbor != 0 {
        neighbor
    } else if diagonal != 0 {
        diagonal | (1 << 4)
    } else {
        0
    }
}

/// A chunk of the map: its position in chunks and its tiles, row by row.
pub struct Chunk {
    pub position: Position,
    pub cells: Vec<Cell>,
}

/// The map: the chunks generated so far, each at its own position.
pub struct Terrain {
    chunks: Vec<Chunk>,
}

/// Whether some chunk of `chunks` lies at `p`.
pub open spec fn has_chunk(chunks: Seq<Chunk>, p: Position) -> bool {
    exists|i: int| 0 <= i < chunks.len() && (#[trigger] chunks[i]).position == p
}

/// The tiles of chunk `p` in the map `m` from chunk positions to tiles.
pub open spec fn tile_spec(m: Map<Position, Seq<Cell>>, p: Position) -> Option<Cell> {
    let (cx, cy, i) = tile_location_spec(p);
    let cp = Position { x: cx as i32, y: cy as i32 };
    if m.contains_key(cp) && 0 <= i < m[cp].len() {
        Some(m[cp][i])
    } else {
        None
    }
}

/// Whether the tile at `(x, y)` is water; tiles off the map are dry.
pub open spec fn water_at(m: Map<Position, Seq<Cell>>, x: int, y: int) -> bool {
    match tile_spec(m, Position { x: x as i32, y: y as i32 }) {
        Some(c) => c.water,
        None => false,
    }
}

impl Terrain {
    /// The map as a function from chunk positions to their tiles.
    pub closed spec fn view(&self) -> Map<Position, Seq<Cell>> {
        Map::new(
            |p: Position| has_chunk(self.chunks@, p),
            |p: Position| self.chunks@[choose|i: int| 0 <= i < self.chunks@.len() && (#[trigger] self.chunks@[i]).position == p].cells@,
        )
    }

    /// Every chunk has a tile for each place and its own position.
    pub closed spec fn wf(&self) -> bool {
        &&& forall|i: int| 0 <= i < self.chunks@.len() ==> (#[trigger] self.chunks@[i]).cells@.len() == CHUNK_SIZE2
        &&& forall|i: int, j: int| 0 <= i < j < self.chunks@.len() ==> (#[trigger] self.chunks@[i]).position != (#[trigger] self.chunks@[j]).position
    }

    proof fn lemma_view_at(&self, k: int)
        requires
            self.wf(),
            0 <= k < self.chunks@.len(),
        ensures
            self.view().contains_key(self.chunks@[k].position),
            self.view()[self.chunks@[k].position] == self.chunks@[k].cells@,
    {
        let p = self.chunks@[k].position;
        assert(has_chunk(self.chunks@, p));
        let c = choose|i: int| 0 <= i < self.chunks@.len() && (#[trigger] self.chunks@[i]).position == p;
        if c < k {
            assert(self.chunks@[c].position != self.chunks@[k].position);
        } else if c > k {
            assert(self.chunks@[k].position != self.chunks@[c].position);
        }
    }

    /// Every chunk in the map has a tile for each place.
    pub proof fn lemma_chunk_len(&self, p: Position)
        requires
            self.wf(),
            self.view().contains_key(p),
        ensures
            self.view()[p].len() == CHUNK_SIZE2,
    {
        let k = choose|i: int| 0 <= i < self.chunks@.len() && (#[trigger] self.chunks@[i]).position == p;
        self.lemma_view_at(k);
    }

    /// An empty map.
    pub fn new() -> (ret: Self)
        ensures
            ret.wf(),
            ret.view() == Map::<Position, Seq<Cell>>::empty(),
    {
        let ret = Terrain { chunks: Vec::new() };
        assert(ret.view() =~= Map::<Position, Seq<Cell>>::empty());
        ret
    }

    fn find_chunk(&self, p: Position) -> (ret: Option<usize>)
        requires
            self.wf(),
        ensures
            match ret {
                Some(k) => k < self.chunks@.len() && self.chunks@[k as int].position == p,
                None => !self.view().contains_key(p),
            },
    {
        let mut i: usize = 0;
        while i < self.chunks.len()
            invariant
                i <= self.chunks@.len(),
                forall|j: int| 0 <= j < i ==> (#[trigger] self.chunks@[j]).position != p,
            decreases self.chunks@.len() - i,
        {
            if self.chunks[i].position == p {
                return Some(i);
            }
            i += 1;
        }
        None
    }

    /// Puts chunk `position` in the map, replacing the one there.
    pub fn insert_chunk(&mut self, position: Position, cells: Vec<Cell>)
        requires
            old(self).wf(),
            cells@.len() == CHUNK_SIZE2,
        ensures
            final(self).wf(),
            final(self).view() == old(self).view().insert(position, cells@),
    {
        let ghost cs = cells@;
        match self.find_chunk(position) {
            Some(k) => {
                let ghost before = self.chunks@;
                self.chunks.set(k, Chunk { position, cells });
                proof {
                    assert forall|q: Position| #![trigger has_chunk(self.chunks@, q)] has_chunk(self.chunks@, q) == has_chunk(before, q) by {
                        if has_chunk(before, q) {
                            let i = choose|i: int| 0 <= i < before.len() && (#[trigger] before[i]).position == q;
                            assert(self.chunks@[i].position == q);
                        }
                        if has_chunk(self.chunks@, q) {
                            let i = choose|i: int| 0 <= i < self.chunks@.len() && (#[trigger] self.chunks@[i]).position == q;
                            assert(before[i].position == q);
                        }
                    }
                    assert(self.wf());
                    assert forall|q: Position| self.view().contains_key(q) implies self.view()[q] == old(self).view().insert(position, cs)[q] by {
                        let i = choose|i: int| 0 <= i < self.chunks@.len() && (#[trigger] self.chunks@[i]).position == q;
                        self.lemma_view_at(i);
                        old(self).lemma_view_at(i);
                    }
                    assert(self.view() =~= old(self).view().insert(position, cs));
                }
            },
            None => {
                let ghost before = self.chunks@;
                self.chunks.push(Chunk { position, cells });
                proof {
                    let n = before.len() as int;
                    assert forall|q: Position| #![trigger has_chunk(self.chunks@, q)] has_chunk(self.chunks@, q) == (has_chunk(before, q) || q == position) by {
                        if has_chunk(before, q) {
                            let i = choose|i: int| 0 <= i < before.len() && (#[trigger] before[i]).position == q;
                            assert(self.chunks@[i].position == q);
                        }
                        if q == position {
                            assert(self.chunks@[n].position == q);
                        }
                        if has_chunk(self.chunks@, q) && q != position {
                            let i = choose|i: int| 0 <= i < self.chunks@.len() && (#[trigger] self.chunks@[i]).position == q;
                            assert(before[i].position == q);
                        }
                    }
                    assert forall|i: int, j: int| 0 <= i < j < self.chunks@.len() implies (#[trigger] self.chunks@[i]).position != (#[trigger] self.chunks@[j]).position by {
                        if j == n {
                            assert(before[i].position == self.chunks@[i].position);
                            assert(has_chunk(before, before[i].position));
                        } else {
                            assert(before[i] == self.chunks@[i] && before[j] == self.chunks@[j]);
                        }
                    }
                    assert forall|i: int| 0 <= i < self.chunks@.len() implies (#[trigger] self.chunks@[i]).cells@.len() == CHUNK_SIZE2 by {
                        if i < n {
                            assert(before[i] == self.chunks@[i]);
                        }
                    }
                    assert(self.wf());
                    assert forall|q: Position| self.view().contains_key(q) implies self.view()[q] == old(self).view().insert(position, cs)[q] by {
                        let i = choose|i: int| 0 <= i < self.chunks@.len() && (#[trigger] self.chunks@[i]).position == q;
                        self.lemma_view_at(i);
                        if i < n {
                            assert(before[i] == self.chunks@[i]);
                            old(self).lemma_view_at(i);
                        }
                    }
                    assert(self.view() =~= old(self).view().insert(position, cs));
                }
            },
        }
    }

    /// The tile at `position`, if its chunk is in the map.
    pub fn get_tile(&self, position: &Position) -> (ret: Option<Cell>)
        requires
            self.wf(),
        ensures
            ret == tile_spec(self.view(), *position),
    {
        let (cp, i) = tile_location(position);
        match self.find_chunk(cp) {
            Some(k) => {
                proof {
                    self.lemma_view_at(k as int);
                }
                Some(self.chunks[k].cells[i])
            },
            None => None,
        }
    }
}

impl Terrain {
    /// Puts `cell` in place of the tile at `position`; says whether the
    /// tile's chunk is in the map (nothing changes when it is not).
    pub fn replace_tile(&mut self, position: &Position, cell: Cell) -> (ret: bool)
        requires
            old(self).wf(),
        ensures
            final(self).wf(),
            ({
                let (cx, cy, i) = tile_location_spec(*position);
                let cp = Position { x: cx as i32, y: cy as i32 };
                &&& ret == old(self).view().contains_key(cp)
                &&& ret ==> final(self).view() == old(self).view().insert(cp, old(self).view()[cp].update(i, cell))
                &&& !ret ==> final(self).view() == old(self).view()
            }),
    {
        let (cp, i) = tile_location(position);
        match self.find_chunk(cp) {
            Some(k) => {
                proof {
                    self.lemma_view_at(k as int);
                }
                let mut cells: Vec<Cell> = Vec::new();
                let mut j: usize = 0;
                while j < CHUNK_SIZE2
                    invariant
                        k < self.chunks@.len(),
                        self.chunks@[k as int].cells@.len() == CHUNK_SIZE2,
                        i < CHUNK_SIZE2,
                        j <= CHUNK_SIZE2,
                        cells@ == self.chunks@[k as int].cells@.update(i as int, cell).take(j as int),
                    decreases CHUNK_SIZE2 - j,
                {
                    if j == i {
                        cells.push(cell);
                    } else {
                        cells.push(self.chunks[k].cells[j]);
                    }
                    j += 1;
                    assert(cells@ =~= self.chunks@[k as int].cells@.update(i as int, cell).take(j as int));
                }
                assert(cells@ =~= self.chunks@[k as int].cells@.update(i as int, cell));
                self.insert_chunk(cp, cells);
                true
            },
            None => false,
        }
    }
}

/// The chunk holding tile `p`.
pub open spec fn chunk_of(p: Position) -> Position {
    Position { x: tile_location_spec(p).0 as i32, y: tile_location_spec(p).1 as i32 }
}

/// Whether chunk `cp` holds one of the tiles `positions`.
pub open spec fn touched_by(positions: Seq<Position>, cp: Position) -> bool {
    exists|l: int| 0 <= l < positions.len() && chunk_of(#[trigger] positions[l]) == cp
}

/// Whether tile `k` of chunk `cp` is one of the first `n` of `positions`.
pub open spec fn dried(positions: Seq<Position>, n: int, cp: Position, k: int) -> bool {
    exists|l: int| 0 <= l < n && chunk_of(#[trigger] positions[l]) == cp && tile_location_spec(positions[l]).2 == k
}

/// Whether tile `k` of chunk `cp` keeps what `old` had there but its
/// picture, losing its water exactly when it is one of the first `n` of
/// `positions`.
pub open spec fn tile_kept(old: Map<Position, Seq<Cell>>, new: Map<Position, Seq<Cell>>, positions: Seq<Position>, n: int, cp: Position, k: int) -> bool {
    &&& new[cp][k].ore == old[cp][k].ore
    &&& new[cp][k].grass_image == old[cp][k].grass_image
    &&& new[cp][k].water == (old[cp][k].water && !dried(positions, n, cp, k))
}

/// Whether the map has a dry tile at `p`.
pub open spec fn dry_tile(m: Map<Position, Seq<Cell>>, p: Position) -> bool {
    match tile_spec(m, p) {
        Some(c) => !c.water,
        None => false,
    }
}

/// The edge picture that tile `i` of chunk `cp` of the map `m` should show:
/// 15 on water, else the picture for the water around it.
pub open spec fn image_at(m: Map<Position, Seq<Cell>>, cp: Position, i: int) -> int {
    let x = cp.x * 16 + i % 16;
    let y = cp.y * 16 + i / 16;
    if m[cp][i].water {
        15
    } else {
        back_image_spec(
            water_at(m, x - 1, y),
            water_at(m, x, y - 1),
            water_at(m, x + 1, y),
            water_at(m, x, y + 1),
            water_at(m, x - 1, y - 1),
            water_at(m, x + 1, y - 1),
            water_at(m, x + 1, y + 1),
            water_at(m, x - 1, y + 1),
        )
    }
}

/// The tiles of chunk `cp` with their edge pictures brought up to date.
pub open spec fn with_images(m: Map<Position, Seq<Cell>>, cp: Position) -> Seq<Cell> {
    Seq::new(CHUNK_SIZE2 as nat, |i: int| Cell { image: image_at(m, cp, i) as u8, ..m[cp][i] })
}

/// Whether the tiles of chunk `cp` and those around it have coordinates
/// that fit in `i32`.
pub open spec fn chunk_fits(cp: Position) -> bool {
    &&& i32::MIN <= cp.x * 16 - 1
    &&& cp.x * 16 + 16 <= i32::MAX
    &&& i32::MIN <= cp.y * 16 - 1
    &&& cp.y * 16 + 16 <= i32::MAX
}

/// Bringing the edge pictures of a chunk up to date twice changes nothing
/// the second time: the pictures depend on water alone, which it leaves
/// as it is.
pub proof fn lemma_back_image_idempotent(m: Map<Position, Seq<Cell>>, cp: Position)
    requires
        m.contains_key(cp),
        m[cp].len() == CHUNK_SIZE2,
    ensures
        ({
            let m2 = m.insert(cp, with_images(m, cp));
            with_images(m2, cp) == m2[cp]
        }),
{
    let m2 = m.insert(cp, with_images(m, cp));
    assert forall|p: Position| #[trigger] tile_spec(m2, p) == match tile_spec(m, p) {
        Some(c) => if chunk_of(p) == cp { Some(Cell { image: image_at(m, cp, tile_location_spec(p).2) as u8, ..c }) } else { Some(c) },
        None => None,
    } by {
        lemma_tile_location_inverse(p);
    }
    assert forall|x: int, y: int| #[trigger] water_at(m2, x, y) == water_at(m, x, y) by {
        let p = Position { x: x as i32, y: y as i32 };
        assert(tile_spec(m2, p) == match tile_spec(m, p) {
            Some(c) => if chunk_of(p) == cp { Some(Cell { image: image_at(m, cp, tile_location_spec(p).2) as u8, ..c }) } else { Some(c) },
            None => None,
        });
    }
    assert(with_images(m2, cp) =~= m2[cp]);
}

impl Terrain {
    fn water_of(&self, x: i32, y: i32) -> (ret: bool)
        requires
            self.wf(),
        ensures
            ret == water_at(self.view(), x as int, y as int),
    {
        match self.get_tile(&Position { x, y }) {
            Some(c) => c.water,
            None => false,
        }
    }

    /// Brings the edge pictures of chunk `cp` up to date with the water on
    /// and around it. The grass pictures are left as they are.
    pub fn update_back_image(&mut self, cp: &Position)
        requires
            old(self).wf(),
            old(self).view().contains_key(*cp),
            chunk_fits(*cp),
        ensures
            final(self).wf(),
            final(self).view() == old(self).view().insert(*cp, with_images(old(self).view(), *cp)),
    {
        proof {
            self.lemma_chunk_len(*cp);
        }
        let k = self.find_chunk(*cp).unwrap();
        proof {
            self.lemma_view_at(k as int);
        }
        let ghost m = self.view();
        let mut cells: Vec<Cell> = Vec::new();
        let mut i: usize = 0;
        while i < CHUNK_SIZE2
            invariant
                self.wf(),
                self.view() == m,
                m.contains_key(*cp),
                chunk_fits(*cp),
                k < self.chunks@.len(),
                self.chunks@[k as int].cells@ == m[*cp],
                m[*cp].len() == CHUNK_SIZE2,
                i <= CHUNK_SIZE2,
                cells@ == with_images(m, *cp).take(i as int),
            decreases CHUNK_SIZE2 - i,
        {
            let ux = (i % CHUNK_SIZE) as i32;
            let uy = (i / CHUNK_SIZE) as i32;
            assert(0 <= ux < 16 && 0 <= uy < 16);
            let x = cp.x * CHUNK_SIZE_I + ux;
            let y = cp.y * CHUNK_SIZE_I + uy;
            let c = self.chunks[k].cells[i];
            let image = if c.water {
                15
            } else {
                back_image(
                    self.water_of(x - 1, y),
                    self.water_of(x, y - 1),
                    self.water_of(x + 1, y),
                    self.water_of(x, y + 1),
                    self.water_of(x - 1, y - 1),
                    self.water_of(x + 1, y - 1),
                    self.water_of(x + 1, y + 1),
                    self.water_of(x - 1, y + 1),
                )
            };
            proof {
                assert(image as int == image_at(m, *cp, i as int));
                assert(0 <= image_at(m, *cp, i as int) < 256);
            }
            cells.push(Cell { image, ..c });
            i += 1;
            assert(cells@ =~= with_images(m, *cp).take(i as int));
        }
        assert(cells@ =~= with_images(m, *cp));
        self.insert_chunk(*cp, cells);
    }

    /// Dries the tiles under the structures at `positions`, then brings up
    /// to date the edge pictures of each chunk touched, once each, in the
    /// order first touched. Returns those chunks.
    pub fn update_water(&mut self, positions: &Vec<Position>) -> (ret: Vec<Position>)
        requires
            old(self).wf(),
            forall|j: int| 0 <= j < positions.len() ==> old(self).view().contains_key(chunk_of(#[trigger] positions@[j]))
                && chunk_fits(chunk_of(positions@[j])),
        ensures
            final(self).wf(),
            final(self).view().dom() == old(self).view().dom(),
            forall|j: int, l: int| 0 <= j < l < ret.len() ==> (#[trigger] ret@[j]) != (#[trigger] ret@[l]),
            forall|j: int| 0 <= j < positions.len() ==> ret@.contains(chunk_of(#[trigger] positions@[j])),
            forall|j: int| 0 <= j < ret.len() ==> touched_by(positions@, #[trigger] ret@[j]),
            forall|j: int| 0 <= j < positions.len() ==> dry_tile(final(self).view(), #[trigger] positions@[j]),
            forall|cp: Position, k: int|
                old(self).view().contains_key(cp) && 0 <= k < CHUNK_SIZE2 ==> #[trigger] tile_kept(
                    old(self).view(),
                    final(self).view(),
                    positions@,
                    positions.len() as int,
                    cp,
                    k,
                ),
            forall|cp: Position| old(self).view().contains_key(cp) && !ret@.contains(cp) ==> #[trigger] final(self).view()[cp]
                == old(self).view()[cp],
    {
        let mut touched: Vec<Position> = Vec::new();
        let mut j: usize = 0;
        while j < positions.len()
            invariant
                self.wf(),
                self.view().dom() == old(self).view().dom(),
                j <= positions.len(),
                forall|a: int| 0 <= a < positions.len() ==> old(self).view().contains_key(chunk_of(#[trigger] positions@[a]))
                    && chunk_fits(chunk_of(positions@[a])),
                forall|a: int, b: int| 0 <= a < b < touched.len() ==> (#[trigger] touched@[a]) != (#[trigger] touched@[b]),
                forall|a: int| 0 <= a < j ==> touched@.contains(chunk_of(#[trigger] positions@[a])),
                forall|a: int| 0 <= a < touched.len() ==> touched_by(positions@, #[trigger] touched@[a]),
                forall|a: int| 0 <= a < j ==> dry_tile(self.view(), #[trigger] positions@[a]),
                forall|cp: Position, k: int|
                    old(self).view().contains_key(cp) && 0 <= k < CHUNK_SIZE2 ==> #[trigger] tile_kept(
                        old(self).view(),
                        self.view(),
                        positions@,
                        j as int,
                        cp,
                        k,
                    ) && self.view()[cp][k].image == old(self).view()[cp][k].image,
                forall|cp: Position| old(self).view().contains_key(cp) && !touched@.contains(cp) ==> #[trigger] self.view()[cp]
                    == old(self).view()[cp],
            decreases positions.len() - j,
        {
            let p = positions[j];
            let ghost before = self.view();
            if let Some(cell) = self.get_tile(&p) {
                self.replace_tile(&p, Cell { water: false, ..cell });
            }
            proof {
                assert(before.dom() =~= self.view().dom());
                assert(old(self).view().contains_key(chunk_of(positions@[j as int])));
                lemma_tile_location_inverse(p);
                self.lemma_chunk_len(chunk_of(p));
                let pc = chunk_of(p);
                let pi = tile_location_spec(p).2;
                assert(self.view() == before.insert(pc, before[pc].update(pi, Cell { water: false, ..before[pc][pi] })));
                assert forall|cp: Position, k: int|
                    old(self).view().contains_key(cp) && 0 <= k < CHUNK_SIZE2 implies #[trigger] tile_kept(
                        old(self).view(),
                        self.view(),
                        positions@,
                        j + 1,
                        cp,
                        k,
                    ) && self.view()[cp][k].image == old(self).view()[cp][k].image by {
                    assert(tile_kept(old(self).view(), before, positions@, j as int, cp, k));
                    if cp == pc && k == pi {
                        assert(chunk_of(positions@[j as int]) == cp && tile_location_spec(positions@[j as int]).2 == k);
                        assert(dried(positions@, j + 1, cp, k));
                    } else {
                        assert(self.view()[cp][k] == before[cp][k]);
                        if dried(positions@, j + 1, cp, k) {
                            let l = choose|l: int| 0 <= l < j + 1 && chunk_of(#[trigger] positions@[l]) == cp
                                && tile_location_spec(positions@[l]).2 == k;
                            assert(l != j);
                            assert(dried(positions@, j as int, cp, k));
                        }
                        if dried(positions@, j as int, cp, k) {
                            let l = choose|l: int| 0 <= l < j && chunk_of(#[trigger] positions@[l]) == cp
                                && tile_location_spec(positions@[l]).2 == k;
                            assert(dried(positions@, j + 1, cp, k));
                        }
                    }
                }
                assert forall|a: int| 0 <= a <= j implies dry_tile(self.view(), #[trigger] positions@[a]) by {
                    if a < j {
                        assert(dry_tile(before, positions@[a]));
                        lemma_tile_location_inverse(positions@[a]);
                    }
                }
            }
            let (cp, _) = tile_location(&p);
            assert(cp == chunk_of(p));
            let mut present = false;
            let mut t: usize = 0;
            while t < touched.len()
                invariant
                    t <= touched.len(),
                    present <==> exists|m: int| 0 <= m < t && touched@[m] == cp,
                decreases touched.len() - t,
            {
                if touched[t] == cp {
                    present = true;
                }
                t += 1;
            }
            let ghost tb = touched@;
            if !present {
                touched.push(cp);
            }
            proof {
                assert forall|a: int| 0 <= a < j + 1 implies touched@.contains(chunk_of(#[trigger] positions@[a])) by {
                    if a < j {
                        let q = chunk_of(positions@[a]);
                        assert(tb.contains(q));
                        let m = choose|m: int| 0 <= m < tb.len() && tb[m] == q;
                        assert(touched@[m] == q);
                    } else if present {
                        let m = choose|m: int| 0 <= m < t && tb[m] == cp;
                        assert(touched@[m] == cp);
                    } else {
                        assert(touched@[tb.len() as int] == cp);
                    }
                }
                assert forall|a: int| 0 <= a < touched.len() implies touched_by(positions@, #[trigger] touched@[a]) by {
                    if a < tb.len() {
                        assert(touched@[a] == tb[a]);
                    } else {
                        assert(touched@[a] == chunk_of(positions@[j as int]));
                    }
                }
                assert(touched@.contains(cp));
                assert forall|q: Position| old(self).view().contains_key(q) && !touched@.contains(q) implies #[trigger] self.view()[q]
                    == old(self).view()[q] by {
                    if tb.contains(q) {
                        let m = choose|m: int| 0 <= m < tb.len() && tb[m] == q;
                        assert(touched@[m] == q);
                    }
                }
            }
            j += 1;
        }
        let mut c: usize = 0;
        while c < touched.len()
            invariant
                self.wf(),
                self.view().dom() == old(self).view().dom(),
                c <= touched.len(),
                forall|a: int| 0 <= a < touched.len() ==> touched_by(positions@, #[trigger] touched@[a]),
                forall|a: int| 0 <= a < positions.len() ==> old(self).view().contains_key(chunk_of(#[trigger] positions@[a]))
                    && chunk_fits(chunk_of(positions@[a])),
                forall|a: int| 0 <= a < positions.len() ==> dry_tile(self.view(), #[trigger] positions@[a]),
                forall|cp: Position, k: int|
                    old(self).view().contains_key(cp) && 0 <= k < CHUNK_SIZE2 ==> #[trigger] tile_kept(
                        old(self).view(),
                        self.view(),
                        positions@,
                        positions.len() as int,
                        cp,
                        k,
                    ),
                forall|cp: Position| old(self).view().contains_key(cp) && !touched@.contains(cp) ==> #[trigger] self.view()[cp]
                    == old(self).view()[cp],
            decreases touched.len() - c,
        {
            let cp = touched[c];
            let ghost before = self.view();
            proof {
                assert(touched_by(positions@, touched@[c as int]));
                let l = choose|l: int| 0 <= l < positions.len() && chunk_of(positions@[l]) == cp;
                assert(old(self).view().contains_key(chunk_of(positions@[l])));
            }
            self.update_back_image(&cp);
            proof {
                assert(self.view().dom() =~= before.dom());
                assert forall|q: Position, k: int|
                    old(self).view().contains_key(q) && 0 <= k < CHUNK_SIZE2 implies #[trigger] tile_kept(
                        old(self).view(),
                        self.view(),
                        positions@,
                        positions.len() as int,
                        q,
                        k,
                    ) by {
                    assert(tile_kept(old(self).view(), before, positions@, positions.len() as int, q, k));
                    if q == cp {
                        assert(self.view()[q][k] == Cell { image: image_at(before, cp, k) as u8, ..before[cp][k] });
                    }
                }
                assert(touched@.contains(cp));
                assert forall|a: int| 0 <= a < positions.len() implies dry_tile(self.view(), #[trigger] positions@[a]) by {
                    assert(dry_tile(before, positions@[a]));
                    lemma_tile_location_inverse(positions@[a]);
                    self.lemma_chunk_len(chunk_of(positions@[a]));
                }
            }
            c += 1;
        }
        touched
    }
}

/// Whether two rows of tiles agree in all but their edge pictures.
pub open spec fn same_ground(a: Seq<Cell>, b: Seq<Cell>) -> bool {
    &&& a.len() == b.len()
    &&& forall|i: int|
        0 <= i < a.len() ==> (#[trigger] a[i]).water == b[i].water && a[i].ore == b[i].ore && a[i].grass_image
            == b[i].grass_image
}

/// Whether two maps have the same chunks, which agree in all but their
/// edge pictures.
pub open spec fn same_grounds(m: Map<Position, Seq<Cell>>, m2: Map<Position, Seq<Cell>>) -> bool {
    &&& m.dom() == m2.dom()
    &&& forall|k: Position| #[trigger] m.contains_key(k) ==> same_ground(m[k], m2[k])
}

/// The edge pictures depend on the water alone: maps that agree in all but
/// their pictures give a chunk the same pictures.
pub proof fn lemma_images_follow_ground(m: Map<Position, Seq<Cell>>, m2: Map<Position, Seq<Cell>>, cp: Position)
    requires
        same_grounds(m, m2),
        m.contains_key(cp),
        m[cp].len() == CHUNK_SIZE2,
    ensures
        with_images(m, cp) == with_images(m2, cp),
{
    assert forall|x: int, y: int| #[trigger] water_at(m2, x, y) == water_at(m, x, y) by {
        let p = Position { x: x as i32, y: y as i32 };
        let (cx, cy, i) = tile_location_spec(p);
        let k = Position { x: cx as i32, y: cy as i32 };
        if m.contains_key(k) {
            assert(same_ground(m[k], m2[k]));
            if 0 <= i < m[k].len() {
                assert(m[k][i].water == m2[k][i].water);
            }
        }
    }
    assert(same_ground(m[cp], m2[cp]));
    assert forall|i: int| 0 <= i < CHUNK_SIZE2 implies #[trigger] with_images(m, cp)[i] == with_images(m2, cp)[i] by {
        assert(m[cp][i].water == m2[cp][i].water);
    }
    assert(with_images(m, cp) =~= with_images(m2, cp));
}

/// The chunk positions of a map `width` by `height` tiles: `width / 16`
/// columns and `height / 16` rows from the origin.
pub open spec fn chunk_grid(width: u32, height: u32) -> Set<Position> {
    Set::new(|p: Position| 0 <= p.x < width / 16 && 0 <= p.y < height / 16)
}

/// The chunks of the grid up to column `x` of row `y`, row by row.
pub open spec fn grid_before(width: u32, height: u32, x: int, y: int) -> Set<Position> {
    Set::new(|p: Position| 0 <= p.x < width / 16 && 0 <= p.y < height / 16 && (p.y < y || (p.y == y && p.x < x)))
}

/// A map of `width / 16` by `height / 16` chunks, chunk `p` holding the
/// tiles that `gen` makes for it, with the edge pictures of every chunk
/// brought up to date with the water around it.
pub fn gen_terrain(width: u32, height: u32, gen: impl Fn(Position) -> Vec<Cell>) -> (ret: Terrain)
    requires
        width < 0x7FFF_0000,
        height < 0x7FFF_0000,
        forall|p: Position| #[trigger] gen.requires((p,)),
        forall|p: Position, c: Vec<Cell>| #[trigger] gen.ensures((p,), c) ==> c@.len() == CHUNK_SIZE2,
    ensures
        ret.wf(),
        ret.view().dom() == chunk_grid(width, height),
        forall|p: Position| #[trigger] chunk_grid(width, height).contains(p) ==> exists|c: Vec<Cell>| gen.ensures((p,), c)
            && same_ground(ret.view()[p], c@),
        forall|p: Position| #[trigger] chunk_grid(width, height).contains(p) ==> ret.view()[p] == with_images(ret.view(), p),
{
    let cols = (width / 16) as i32;
    let rows = (height / 16) as i32;
    let mut terrain = Terrain::new();
    let mut y: i32 = 0;
    while y < rows
        invariant
            cols == width / 16,
            rows == height / 16,
            0 <= y <= rows,
            terrain.wf(),
            terrain.view().dom() == grid_before(width, height, 0, y as int),
            forall|p: Position| #[trigger] terrain.view().contains_key(p) ==> exists|c: Vec<Cell>| gen.ensures((p,), c)
                && c@ == terrain.view()[p],
            forall|p: Position| #[trigger] gen.requires((p,)),
            forall|p: Position, c: Vec<Cell>| #[trigger] gen.ensures((p,), c) ==> c@.len() == CHUNK_SIZE2,
        decreases rows - y,
    {
        let mut x: i32 = 0;
        while x < cols
            invariant
                cols == width / 16,
                rows == height / 16,
                0 <= y < rows,
                0 <= x <= cols,
                terrain.wf(),
                terrain.view().dom() == grid_before(width, height, x as int, y as int),
                forall|p: Position| #[trigger] terrain.view().contains_key(p) ==> exists|c: Vec<Cell>| gen.ensures((p,), c)
                    && c@ == terrain.view()[p],
                forall|p: Position| #[trigger] gen.requires((p,)),
                forall|p: Position, c: Vec<Cell>| #[trigger] gen.ensures((p,), c) ==> c@.len() == CHUNK_SIZE2,
            decreases cols - x,
        {
            let p = Position { x, y };
            let cells = gen(p);
            let ghost before = terrain.view();
            let ghost made = cells;
            terrain.insert_chunk(p, cells);
            proof {
                assert(terrain.view().dom() =~= grid_before(width, height, x + 1, y as int));
                assert forall|q: Position| #[trigger] terrain.view().contains_key(q) implies exists|c: Vec<Cell>| gen.ensures((q,), c)
                    && c@ == terrain.view()[q] by {
                    if q == p {
                        assert(gen.ensures((q,), made) && made@ == terrain.view()[q]);
                    } else {
                        assert(before.contains_key(q));
                    }
                }
            }
            x += 1;
        }
        proof {
            assert(grid_before(width, height, cols as int, y as int) =~= grid_before(width, height, 0, y + 1));
        }
        y += 1;
    }
    proof {
        assert(grid_before(width, height, 0, rows as int) =~= chunk_grid(width, height));
    }
    let ghost m0 = terrain.view();
    assert(same_grounds(m0, terrain.view()));
    let mut y: i32 = 0;
    while y < rows
        invariant
            cols == width / 16,
            rows == height / 16,
            width < 0x7FFF_0000,
            height < 0x7FFF_0000,
            0 <= y <= rows,
            terrain.wf(),
            m0.dom() == chunk_grid(width, height),
            forall|p: Position| #[trigger] m0.contains_key(p) ==> m0[p].len() == CHUNK_SIZE2,
            same_grounds(m0, terrain.view()),
            forall|p: Position| #[trigger] grid_before(width, height, 0, y as int).contains(p) ==> terrain.view()[p] == with_images(
                terrain.view(),
                p,
            ),
        decreases rows - y,
    {
        let mut x: i32 = 0;
        while x < cols
            invariant
                cols == width / 16,
                rows == height / 16,
                width < 0x7FFF_0000,
                height < 0x7FFF_0000,
                0 <= y < rows,
                0 <= x <= cols,
                terrain.wf(),
                m0.dom() == chunk_grid(width, height),
                forall|p: Position| #[trigger] m0.contains_key(p) ==> m0[p].len() == CHUNK_SIZE2,
                same_grounds(m0, terrain.view()),
                forall|p: Position| #[trigger] grid_before(width, height, x as int, y as int).contains(p) ==> terrain.view()[p]
                    == with_images(terrain.view(), p),
            decreases cols - x,
        {
            let p = Position { x, y };
            let ghost before = terrain.view();
            proof {
                assert(m0.contains_key(p));
                assert(same_ground(m0[p], before[p]));
            }
            terrain.update_back_image(&p);
            proof {
                let after = terrain.view();
                assert(same_grounds(before, after)) by {
                    assert(after.dom() =~= before.dom());
                    assert forall|k: Position| #[trigger] before.contains_key(k) implies same_ground(before[k], after[k]) by {
                        if k == p {
                            assert(same_ground(m0[k], before[k]));
                        } else {
                            assert(same_ground(m0[k], before[k]));
                        }
                    }
                }
                assert(same_grounds(m0, after)) by {
                    assert forall|k: Position| #[trigger] m0.contains_key(k) implies same_ground(m0[k], after[k]) by {
                        assert(same_ground(m0[k], before[k]));
                        assert(same_ground(before[k], after[k]));
                    }
                }
                assert forall|q: Position| #[trigger] grid_before(width, height, x + 1, y as int).contains(q) implies after[q]
                    == with_images(after, q) by {
                    assert(m0.contains_key(q));
                    assert(same_ground(m0[q], before[q]));
                    lemma_images_follow_ground(before, after, q);
                    if q != p {
                        assert(grid_before(width, height, x as int, y as int).contains(q));
                    }
                }
            }
            x += 1;
        }
        proof {
            assert forall|p: Position| #[trigger] grid_before(width, height, 0, y + 1).contains(p) implies terrain.view()[p]
                == with_images(terrain.view(), p) by {
                assert(grid_before(width, height, cols as int, y as int).contains(p));
            }
        }
        y += 1;
    }
    proof {
        assert forall|p: Position| #[trigger] chunk_grid(width, height).contains(p) implies exists|c: Vec<Cell>| gen.ensures((p,), c)
            && same_ground(terrain.view()[p], c@) by {
            assert(m0.contains_key(p));
            let c = choose|c: Vec<Cell>| gen.ensures((p,), c) && c@ == m0[p];
            assert(same_ground(m0[p], terrain.view()[p]));
            assert(same_ground(terrain.view()[p], c@));
        }
        assert forall|p: Position| #[trigger] chunk_grid(width, height).contains(p) implies terrain.view()[p] == with_images(
            terrain.view(),
            p,
        ) by {
            assert(grid_before(width, height, 0, rows as int).contains(p));
        }
    }
    terrain
}

} // verus!
