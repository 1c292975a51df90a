//! Items lying on the ground, at pixel positions, and the grid index that
//! finds the items near a point quickly.
use crate::gen_set::{handle, lookup_in, payload_value, GenEntry, GenId, GenPayload, GenSet};
use crate::items::ItemType;
use crate::structure::tile_reach;
use vstd::arithmetic::div_mod::lemma_div_is_ordered;
use vstd::prelude::*;

verus! {

/// How close (in pixels, along each axis) two items may not lie.
pub const DROP_ITEM_SIZE_I: i32 = 8;

/// The side of a cell of the index, in tiles.
pub const INDEX_CHUNK_SIZE: usize = 16;

/// The side of a cell of the index, in pixels.
pub const INDEX_GRID_SIZE: i32 = 512;

/// An item lying on the ground at pixel `(x, y)`.
#[derive(Clone, Copy, PartialEq, Eq, Structural, Debug)]
pub struct DropItem {
    pub type_: ItemType,
    pub x: i32,
    pub y: i32,
}

impl DropItem {
    /// An item at the centre of tile `(c, r)`.
    pub fn new(type_: ItemType, c: i32, r: i32) -> (ret: Self)
        requires
            tile_reach(c as int, 0),
            tile_reach(r as int, 0),
        ensures
            ret.type_ == type_,
            ret.x == c * 32 + 16,
            ret.y == r * 32 + 16,
    {
        DropItem { type_, x: c * 32 + 16, y: r * 32 + 16 }
    }
}

/// Whether item `it` lies within `DROP_ITEM_SIZE_I` of `(x, y)` along both
/// axes.
pub open spec fn close(it: DropItem, x: int, y: int) -> bool {
    -DROP_ITEM_SIZE_I < x - it.x < DROP_ITEM_SIZE_I && -DROP_ITEM_SIZE_I < y - it.y < DROP_ITEM_SIZE_I
}

/// Whether `ignore` is the handle of slot `i` at generation `gen`.
pub open spec fn ignored(ignore: Option<GenId<DropItem>>, i: int, gen: u32) -> bool {
    match ignore {
        Some(g) => g.id == i && g.gen == gen,
        None => false,
    }
}

/// Whether slot `i` holds an item, other than `ignore`, close to `(x, y)`.
pub open spec fn hit_at(slots: Seq<GenEntry<DropItem>>, i: int, x: int, y: int, ignore: Option<GenId<DropItem>>) -> bool {
    match payload_value(slots[i].item) {
        Some(it) => !ignored(ignore, i, slots[i].gen) && close(it, x, y),
        None => false,
    }
}

/// Whether some item of `slots`, other than `ignore`, lies close to
/// `(x, y)`.
pub open spec fn hits(slots: Seq<GenEntry<DropItem>>, x: int, y: int, ignore: Option<GenId<DropItem>>) -> bool {
    exists|i: int| 0 <= i < slots.len() && #[trigger] hit_at(slots, i, x, y, ignore)
}

/// Whether any item of `items`, other than `ignore`, lies close to
/// `(x, y)`.
pub fn hit_check(items: &GenSet<DropItem>, x: i32, y: i32, ignore: Option<GenId<DropItem>>) -> (ret: bool)
    ensures
        ret == hits(items.slots(), x as int, y as int, ignore),
{
    let v = items.entries();
    let mut i: usize = 0;
    while i < v.len()
        invariant
            v@ == items.slots(),
            i <= v.len(),
            forall|j: int| 0 <= j < i ==> !#[trigger] hit_at(items.slots(), j, x as int, y as int, ignore),
        decreases v.len() - i,
    {
        let e = &v[i];
        if let GenPayload::Occupied(it) = &e.item {
            let skip = match ignore {
                Some(g) => g.id as usize == i && g.gen == e.gen,
                None => false,
            };
            let dx = x as i64 - it.x as i64;
            let dy = y as i64 - it.y as i64;
            if !skip && -8 < dx && dx < 8 && -8 < dy && dy < 8 {
                assert(hit_at(items.slots(), i as int, x as int, y as int, ignore));
                return true;
            }
        }
        i += 1;
    }
    false
}

/// The cell of the index that pixel coordinate `v` lies in.
pub open spec fn grid_of(v: int) -> int {
    v / (INDEX_GRID_SIZE as int)
}

fn grid(v: i64) -> (ret: i32)
    requires
        i32::MIN - DROP_ITEM_SIZE_I <= v <= i32::MAX + DROP_ITEM_SIZE_I,
    ensures
        ret == grid_of(v as int),
{
    proof {
        assert(i32::MIN <= v / 512 <= i32::MAX);
    }
    match v.checked_div_euclid(INDEX_GRID_SIZE as i64) {
        Some(g) => g as i32,
        None => 0,
    }
}

/// The cells of the index that an item close to `(x, y)` can lie in:
/// columns `left..=right` and rows `top..=bottom`, as
/// `[left, top, right, bottom]`.
pub fn intersecting_chunks(x: i32, y: i32) -> (ret: [i32; 4])
    ensures
        ret@ == seq![
            grid_of(x - DROP_ITEM_SIZE_I) as i32,
            grid_of(y - DROP_ITEM_SIZE_I) as i32,
            grid_of(x + DROP_ITEM_SIZE_I) as i32,
            grid_of(y + DROP_ITEM_SIZE_I) as i32,
        ],
{
    let (x, y) = (x as i64, y as i64);
    let d = DROP_ITEM_SIZE_I as i64;
    let ret = [grid(x - d), grid(y - d), grid(x + d), grid(y + d)];
    assert(ret@ =~= seq![
        grid_of(x - DROP_ITEM_SIZE_I) as i32,
        grid_of(y - DROP_ITEM_SIZE_I) as i32,
        grid_of(x + DROP_ITEM_SIZE_I) as i32,
        grid_of(y + DROP_ITEM_SIZE_I) as i32,
    ]);
    ret
}

/// The grid index of the items on the ground: for each cell of
/// `INDEX_GRID_SIZE` pixels that holds items, their handles.
pub struct DropItemIndex {
    cells: Vec<((i32, i32), Vec<GenId<DropItem>>)>,
}

/// The handles that `m` lists for cell `key` (none when it lists none).
pub open spec fn cell_ids(m: Map<(i32, i32), Seq<GenId<DropItem>>>, key: (i32, i32)) -> Seq<GenId<DropItem>> {
    if m.contains_key(key) {
        m[key]
    } else {
        Seq::empty()
    }
}

/// `b` without its entry at `p`, the last entry taking its place.
pub open spec fn swap_removed(b: Seq<GenId<DropItem>>, p: int) -> Seq<GenId<DropItem>> {
    b.update(p, b.last()).drop_last()
}

/// The first position of handle `id` (by slot and generation) in `b`.
pub open spec fn first_pos(b: Seq<GenId<DropItem>>, id: GenId<DropItem>, i: int) -> Option<int>
    decreases b.len() - i,
{
    if i < 0 || i >= b.len() {
        None
    } else if b[i].id == id.id && b[i].gen == id.gen {
        Some(i)
    } else {
        first_pos(b, id, i + 1)
    }
}

proof fn lemma_first_pos(b: Seq<GenId<DropItem>>, id: GenId<DropItem>, i: int)
    requires
        0 <= i,
    ensures
        first_pos(b, id, i) matches Some(p) ==> i <= p < b.len(),
    decreases b.len() - i,
{
    if i < b.len() && !(b[i].id == id.id && b[i].gen == id.gen) {
        lemma_first_pos(b, id, i + 1);
    }
}

/// The handles that `cells`, from index `i` on, list for `key`.
pub open spec fn lookup_cell(cells: Seq<((i32, i32), Vec<GenId<DropItem>>)>, key: (i32, i32), i: int) -> Option<Seq<GenId<DropItem>>>
    decreases cells.len() - i,
{
    if i < 0 || i >= cells.len() {
        None
    } else if cells[i].0 == key {
        Some(cells[i].1@)
    } else {
        lookup_cell(cells, key, i + 1)
    }
}

proof fn lemma_lookup_cell_at(cells: Seq<((i32, i32), Vec<GenId<DropItem>>)>, key: (i32, i32), j: int, i: int)
    requires
        0 <= j <= i < cells.len(),
        cells[i].0 == key,
        forall|m: int| j <= m < i ==> cells[m].0 != key,
    ensures
        lookup_cell(cells, key, j) == Some(cells[i].1@),
    decreases i - j,
{
    if j < i {
        lemma_lookup_cell_at(cells, key, j + 1, i);
    }
}

proof fn lemma_lookup_cell_none(cells: Seq<((i32, i32), Vec<GenId<DropItem>>)>, key: (i32, i32), j: int)
    requires
        0 <= j,
        forall|m: int| 0 <= m < cells.len() ==> (#[trigger] cells[m]).0 != key,
    ensures
        lookup_cell(cells, key, j) is None,
    decreases cells.len() - j,
{
    if j < cells.len() {
        lemma_lookup_cell_none(cells, key, j + 1);
    }
}

impl DropItemIndex {
    /// The cells listed, in the order they were first used.
    pub closed spec fn keys(&self) -> Seq<(i32, i32)> {
        Seq::new(self.cells@.len(), |i: int| self.cells@[i].0)
    }

    /// Each cell is listed once.
    pub closed spec fn wf(&self) -> bool {
        self.keys().no_duplicates()
    }

    /// The index as a map from cells to their handles.
    pub closed spec fn view(&self) -> Map<(i32, i32), Seq<GenId<DropItem>>> {
        Map::new(
            |k: (i32, i32)| lookup_cell(self.cells@, k, 0) is Some,
            |k: (i32, i32)| lookup_cell(self.cells@, k, 0)->0,
        )
    }

    proof fn lemma_view_at(&self, i: int)
        requires
            self.wf(),
            0 <= i < self.cells@.len(),
        ensures
            self.view().contains_key(self.cells@[i].0),
            self.view()[self.cells@[i].0] == self.cells@[i].1@,
    {
        let k = self.cells@[i].0;
        assert forall|m: int| 0 <= m < i implies self.cells@[m].0 != k by {
            assert(self.keys()[m] != self.keys()[i]);
        }
        lemma_lookup_cell_at(self.cells@, k, 0, i);
    }

    proof fn lemma_view_none(&self, k: (i32, i32))
        requires
            forall|m: int| 0 <= m < self.cells@.len() ==> (#[trigger] self.cells@[m]).0 != k,
        ensures
            !self.view().contains_key(k),
    {
        lemma_lookup_cell_none(self.cells@, k, 0);
    }

    proof fn lemma_view_has(&self, k: (i32, i32))
        requires
            self.wf(),
            self.view().contains_key(k),
        ensures
            exists|i: int| 0 <= i < self.cells@.len() && (#[trigger] self.cells@[i]).0 == k,
    {
        if forall|m: int| 0 <= m < self.cells@.len() ==> (#[trigger] self.cells@[m]).0 != k {
            self.lemma_view_none(k);
        }
    }

    /// The cells listed are the cells of the map, each once.
    pub proof fn lemma_keys(&self)
        requires
            self.wf(),
        ensures
            self.keys().no_duplicates(),
            self.keys().to_set() == self.view().dom(),
            self.keys().len() == self.view().dom().len(),
    {
        assert forall|k: (i32, i32)| self.keys().to_set().contains(k) == self.view().dom().contains(k) by {
            if self.keys().to_set().contains(k) {
                let i = choose|i: int| 0 <= i < self.keys().len() && self.keys()[i] == k;
                assert(self.cells@[i].0 == k);
            }
            if self.view().dom().contains(k) {
                self.lemma_view_has(k);
                let i = choose|i: int| 0 <= i < self.cells@.len() && (#[trigger] self.cells@[i]).0 == k;
                assert(self.keys()[i] == k);
                assert(self.keys().contains(k));
            }
            if self.keys().to_set().contains(k) {
                let i = choose|i: int| 0 <= i < self.keys().len() && self.keys()[i] == k;
                self.lemma_view_at(i);
            }
        }
        assert(self.keys().to_set() =~= self.view().dom());
        self.keys().unique_seq_to_set();
    }

    /// An empty index.
    pub fn new() -> (ret: Self)
        ensures
            ret.wf(),
            ret.view() == Map::<(i32, i32), Seq<GenId<DropItem>>>::empty(),
    {
        let ret = DropItemIndex { cells: Vec::new() };
        assert(ret.keys() =~= Seq::<(i32, i32)>::empty());
        assert(ret.view() =~= Map::<(i32, i32), Seq<GenId<DropItem>>>::empty());
        ret
    }

    /// The number of cells that hold items.
    pub fn len(&self) -> (ret: usize)
        requires
            self.wf(),
        ensures
            ret == self.view().dom().len(),
    {
        proof {
            self.lemma_keys();
        }
        self.cells.len()
    }

    fn find(&self, key: (i32, i32)) -> (ret: Option<usize>)
        requires
            self.wf(),
        ensures
            match ret {
                Some(i) => i < self.cells@.len() && self.cells@[i as int].0 == key,
                None => !self.view().contains_key(key),
            },
    {
        let mut i: usize = 0;
        while i < self.cells.len()
            invariant
                i <= self.cells@.len(),
                forall|j: int| 0 <= j < i ==> (#[trigger] self.cells@[j]).0 != key,
            decreases self.cells@.len() - i,
        {
            if self.cells[i].0 .0 == key.0 && self.cells[i].0 .1 == key.1 {
                return Some(i);
            }
            i += 1;
        }
        proof {
            self.lemma_view_none(key);
        }
        None
    }

    /// The handles listed for cell `key`.
    pub fn get(&self, key: (i32, i32)) -> (ret: Option<&Vec<GenId<DropItem>>>)
        requires
            self.wf(),
        ensures
            match ret {
                Some(b) => self.view().contains_key(key) && b@ == self.view()[key],
                None => !self.view().contains_key(key),
            },
    {
        match self.find(key) {
            Some(i) => {
                proof {
                    self.lemma_view_at(i as int);
                }
                Some(&self.cells[i].1)
            },
            None => None,
        }
    }

    /// The handle lists of the cells, in the order of `keys`.
    pub fn values(&self) -> (ret: Vec<&Vec<GenId<DropItem>>>)
        requires
            self.wf(),
        ensures
            ret@.len() == self.keys().len(),
            forall|k: int| 0 <= k < ret@.len() ==> (#[trigger] ret@[k])@ == self.view()[self.keys()[k]],
    {
        let mut ret: Vec<&Vec<GenId<DropItem>>> = Vec::new();
        let mut i: usize = 0;
        while i < self.cells.len()
            invariant
                self.wf(),
                i <= self.cells@.len(),
                ret@.len() == i,
                forall|k: int| 0 <= k < i ==> (#[trigger] ret@[k])@ == self.view()[self.keys()[k]],
            decreases self.cells@.len() - i,
        {
            proof {
                self.lemma_view_at(i as int);
            }
            ret.push(&self.cells[i].1);
            i += 1;
        }
        ret
    }

    fn replace_cell(&mut self, i: usize, b: Vec<GenId<DropItem>>)
        requires
            old(self).wf(),
            i < old(self).cells@.len(),
        ensures
            final(self).wf(),
            final(self).view() == old(self).view().insert(old(self).cells@[i as int].0, b@),
    {
        let ghost before = self.cells@;
        let ghost bb = b@;
        let (key, _) = self.cells.remove(i);
        self.cells.insert(i, (key, b));
        proof {
            assert(self.cells@ =~= before.update(i as int, (key, b)));
            assert(self.keys() =~= old(self).keys());
            let target = old(self).view().insert(key, bb);
            assert forall|q: (i32, i32)| #![trigger target.contains_key(q)]
                self.view().contains_key(q) == target.contains_key(q) && (self.view().contains_key(q) ==> self.view()[q] == target[q]) by {
                if q == key {
                    self.lemma_view_at(i as int);
                } else if old(self).view().contains_key(q) {
                    old(self).lemma_view_has(q);
                    let j = choose|j: int| 0 <= j < before.len() && (#[trigger] before[j]).0 == q;
                    old(self).lemma_view_at(j);
                    self.lemma_view_at(j);
                } else {
                    assert forall|m: int| 0 <= m < self.cells@.len() implies (#[trigger] self.cells@[m]).0 != q by {
                        if m != i {
                            if before[m].0 == q {
                                old(self).lemma_view_at(m);
                            }
                        }
                    }
                    self.lemma_view_none(q);
                }
            }
            assert(self.view() =~= target);
        }
    }

    fn append_cell(&mut self, key: (i32, i32), b: Vec<GenId<DropItem>>)
        requires
            old(self).wf(),
            !old(self).view().contains_key(key),
        ensures
            final(self).wf(),
            final(self).view() == old(self).view().insert(key, b@),
    {
        let ghost before = self.cells@;
        let ghost bb = b@;
        self.cells.push((key, b));
        proof {
            let n = before.len() as int;
            assert forall|m: int| 0 <= m < n implies (#[trigger] before[m]).0 != key by {
                if before[m].0 == key {
                    old(self).lemma_view_at(m);
                }
            }
            assert forall|a: int, c: int| 0 <= a < self.keys().len() && 0 <= c < self.keys().len() && a != c implies self.keys()[a] != self.keys()[c] by {
                if a < n && c < n {
                    assert(self.keys()[a] == old(self).keys()[a] && self.keys()[c] == old(self).keys()[c]);
                } else if a == n {
                    assert(before[c].0 == self.keys()[c]);
                } else {
                    assert(before[a].0 == self.keys()[a]);
                }
            }
            let target = old(self).view().insert(key, bb);
            assert forall|q: (i32, i32)| #![trigger target.contains_key(q)]
                self.view().contains_key(q) == target.contains_key(q) && (self.view().contains_key(q) ==> self.view()[q] == target[q]) by {
                if q == key {
                    self.lemma_view_at(n);
                } else if old(self).view().contains_key(q) {
                    old(self).lemma_view_has(q);
                    let j = choose|j: int| 0 <= j < before.len() && (#[trigger] before[j]).0 == q;
                    old(self).lemma_view_at(j);
                    assert(self.cells@[j] == before[j]);
                    self.lemma_view_at(j);
                } else {
                    assert forall|m: int| 0 <= m < self.cells@.len() implies (#[trigger] self.cells@[m]).0 != q by {
                        if m < n {
                            assert(self.cells@[m] == before[m]);
                            if before[m].0 == q {
                                old(self).lemma_view_at(m);
                            }
                        }
                    }
                    self.lemma_view_none(q);
                }
            }
            assert(self.view() =~= target);
        }
    }

    /// Lists handle `id` under cell `key`, after those already there.
    pub fn push(&mut self, key: (i32, i32), id: GenId<DropItem>)
        requires
            old(self).wf(),
        ensures
            final(self).wf(),
            final(self).view() == old(self).view().insert(key, cell_ids(old(self).view(), key).push(id)),
    {
        match self.find(key) {
            Some(i) => {
                proof {
                    self.lemma_view_at(i as int);
                }
                let mut b = Vec::new();
                let mut j: usize = 0;
                while j < self.cells[i].1.len()
                    invariant
                        i < self.cells@.len(),
                        j <= self.cells@[i as int].1@.len(),
                        b@ == self.cells@[i as int].1@.take(j as int),
                    decreases self.cells@[i as int].1@.len() - j,
                {
                    b.push(self.cells[i].1[j]);
                    j += 1;
                    assert(b@ =~= self.cells@[i as int].1@.take(j as int));
                }
                assert(b@ =~= self.cells@[i as int].1@);
                b.push(id);
                self.replace_cell(i, b);
            },
            None => {
                let mut b = Vec::new();
                b.push(id);
                assert(b@ =~= Seq::<GenId<DropItem>>::empty().push(id));
                self.append_cell(key, b);
            },
        }
    }

    /// Takes handle `id` (the first listing of it) off cell `key`, the last
    /// handle of the cell taking its place; nothing happens when the cell
    /// does not list it.
    pub fn remove_id(&mut self, key: (i32, i32), id: GenId<DropItem>)
        requires
            old(self).wf(),
        ensures
            final(self).wf(),
            match first_pos(cell_ids(old(self).view(), key), id, 0) {
                Some(p) => final(self).view() == old(self).view().insert(key, swap_removed(old(self).view()[key], p)),
                None => final(self).view() == old(self).view(),
            },
    {
        match self.find(key) {
            Some(i) => {
                proof {
                    self.lemma_view_at(i as int);
                }
                let ghost cells0 = self.cells@;
                let mut b = Vec::new();
                let mut j: usize = 0;
                while j < self.cells[i].1.len()
                    invariant
                        i < self.cells@.len(),
                        j <= self.cells@[i as int].1@.len(),
                        b@ == self.cells@[i as int].1@.take(j as int),
                    decreases self.cells@[i as int].1@.len() - j,
                {
                    b.push(self.cells[i].1[j]);
                    j += 1;
                    assert(b@ =~= self.cells@[i as int].1@.take(j as int));
                }
                assert(b@ =~= self.cells@[i as int].1@);
                let ghost b0 = b@;
                let mut p: usize = 0;
                while p < b.len()
                    invariant
                        b@ == b0,
                        p <= b@.len(),
                        first_pos(b0, id, 0) == first_pos(b0, id, p as int),
                        *self == *old(self),
                        self.wf(),
                        i < self.cells@.len(),
                        self.cells@[i as int].0 == key,
                        b0 == self.cells@[i as int].1@,
                        old(self).view()[key] == b0,
                        old(self).view().contains_key(key),
                    decreases b@.len() - p,
                {
                    if b[p].id == id.id && b[p].gen == id.gen {
                        proof {
                            lemma_first_pos(b0, id, 0);
                        }
                        b.swap_remove(p);
                        self.replace_cell(i, b);
                        return;
                    }
                    p += 1;
                }
            },
            None => {},
        }
    }
}

/// The cell of the index that item `it` lies in.
pub open spec fn item_cell(it: DropItem) -> (i32, i32) {
    (grid_of(it.x as int) as i32, grid_of(it.y as int) as i32)
}

/// The handles of the items among the first `n` slots that lie in cell
/// `key`, in slot order.
pub open spec fn ids_in_cell(slots: Seq<GenEntry<DropItem>>, key: (i32, i32), n: int) -> Seq<GenId<DropItem>>
    decreases n,
{
    if n <= 0 {
        Seq::empty()
    } else {
        let prev = ids_in_cell(slots, key, n - 1);
        match payload_value(slots[n - 1].item) {
            Some(it) => if item_cell(it) == key { prev.push(handle::<DropItem>(n - 1, slots[n - 1].gen)) } else { prev },
            None => prev,
        }
    }
}

/// The index of the items among the first `n` slots.
pub open spec fn built_upto(slots: Seq<GenEntry<DropItem>>, n: int) -> Map<(i32, i32), Seq<GenId<DropItem>>> {
    Map::new(|k: (i32, i32)| ids_in_cell(slots, k, n).len() > 0, |k: (i32, i32)| ids_in_cell(slots, k, n))
}

/// The index of the items of `slots`: each cell that holds items lists
/// their handles in slot order.
pub open spec fn built_index(slots: Seq<GenEntry<DropItem>>) -> Map<(i32, i32), Seq<GenId<DropItem>>> {
    built_upto(slots, slots.len() as int)
}

/// Builds the index of `items`.
pub fn build_index(items: &GenSet<DropItem>) -> (ret: DropItemIndex)
    requires
        items.wf(),
    ensures
        ret.wf(),
        ret.view() == built_index(items.slots()),
{
    proof {
        items.lemma_wf_len();
    }
    let v = items.entries();
    let mut ret = DropItemIndex::new();
    assert(ret.view() =~= built_upto(v@, 0));
    let mut i: usize = 0;
    while i < v.len()
        invariant
            v@ == items.slots(),
            v@.len() <= u32::MAX,
            i <= v@.len(),
            ret.wf(),
            ret.view() == built_upto(v@, i as int),
        decreases v@.len() - i,
    {
        let e = &v[i];
        let ghost before = ret.view();
        if let GenPayload::Occupied(it) = &e.item {
            let key = (grid(it.x as i64), grid(it.y as i64));
            let id = GenId::new(i as u32, e.gen);
            proof {
                GenId::lemma_same_handle(id, handle::<DropItem>(i as int, e.gen));
            }
            ret.push(key, id);
            proof {
                assert forall|k: (i32, i32)| #![trigger built_upto(v@, i + 1).contains_key(k)]
                    ret.view().contains_key(k) == built_upto(v@, i + 1).contains_key(k)
                    && (ret.view().contains_key(k) ==> ret.view()[k] == built_upto(v@, i + 1)[k]) by {
                    if k == key {
                        if ids_in_cell(v@, k, i as int).len() == 0 {
                            assert(ids_in_cell(v@, k, i as int) =~= Seq::<GenId<DropItem>>::empty());
                        }
                    }
                }
                assert(ret.view() =~= built_upto(v@, i + 1));
            }
        } else {
            proof {
                assert forall|k: (i32, i32)| #![trigger built_upto(v@, i + 1).contains_key(k)]
                    ret.view().contains_key(k) == built_upto(v@, i + 1).contains_key(k)
                    && (ret.view().contains_key(k) ==> ret.view()[k] == built_upto(v@, i + 1)[k]) by {}
                assert(ret.view() =~= built_upto(v@, i + 1));
            }
        }
        i += 1;
    }
    ret
}

/// Lists an item that now lies at pixel `(x, y)` under its cell.
pub fn add_index(index: &mut DropItemIndex, id: GenId<DropItem>, x: i32, y: i32)
    requires
        old(index).wf(),
    ensures
        final(index).wf(),
        ({
            let key = (grid_of(x as int) as i32, grid_of(y as int) as i32);
            final(index).view() == old(index).view().insert(key, cell_ids(old(index).view(), key).push(id))
        }),
{
    index.push((grid(x as i64), grid(y as i64)), id);
}

/// Takes an item that lay at pixel `(old_x, old_y)` off its cell (see
/// [`DropItemIndex::remove_id`]).
pub fn remove_index(index: &mut DropItemIndex, id: GenId<DropItem>, old_x: i32, old_y: i32)
    requires
        old(index).wf(),
    ensures
        final(index).wf(),
        ({
            let key = (grid_of(old_x as int) as i32, grid_of(old_y as int) as i32);
            match first_pos(cell_ids(old(index).view(), key), id, 0) {
                Some(p) => final(index).view() == old(index).view().insert(key, swap_removed(old(index).view()[key], p)),
                None => final(index).view() == old(index).view(),
            }
        }),
{
    index.remove_id((grid(old_x as i64), grid(old_y as i64)), id);
}

/// Moves an item from pixel `(old_x, old_y)` to `(x, y)` in the index:
/// nothing changes when both lie in the same cell; otherwise it is taken
/// off the old cell and listed under the new one.
pub fn update_index(index: &mut DropItemIndex, id: GenId<DropItem>, old_x: i32, old_y: i32, x: i32, y: i32)
    requires
        old(index).wf(),
    ensures
        final(index).wf(),
        ({
            let old_key = (grid_of(old_x as int) as i32, grid_of(old_y as int) as i32);
            let key = (grid_of(x as int) as i32, grid_of(y as int) as i32);
            if old_key == key {
                final(index).view() == old(index).view()
            } else {
                let removed = match first_pos(cell_ids(old(index).view(), old_key), id, 0) {
                    Some(p) => old(index).view().insert(old_key, swap_removed(old(index).view()[old_key], p)),
                    None => old(index).view(),
                };
                final(index).view() == removed.insert(key, cell_ids(removed, key).push(id))
            }
        }),
{
    let old_key = (grid(old_x as i64), grid(old_y as i64));
    let key = (grid(x as i64), grid(y as i64));
    if old_key.0 == key.0 && old_key.1 == key.1 {
        return;
    }
    index.remove_id(old_key, id);
    index.push(key, id);
}

/// Whether `id` is the handle `ignore` (same slot and generation).
pub open spec fn is_ignore(ignore: Option<GenId<DropItem>>, id: GenId<DropItem>) -> bool {
    match ignore {
        Some(g) => g.id == id.id && g.gen == id.gen,
        None => false,
    }
}

/// Whether handle `id`, other than `ignore`, designates an item of `slots`
/// close to `(x, y)`.
pub open spec fn id_hits(slots: Seq<GenEntry<DropItem>>, id: GenId<DropItem>, x: int, y: int, ignore: Option<GenId<DropItem>>) -> bool {
    !is_ignore(ignore, id) && match lookup_in(slots, id) {
        Some(it) => close(it, x, y),
        None => false,
    }
}

/// Whether cell `(cx, cy)` of index `m` lists a handle that `id_hits`.
pub open spec fn cell_hit(
    slots: Seq<GenEntry<DropItem>>,
    m: Map<(i32, i32), Seq<GenId<DropItem>>>,
    cx: int,
    cy: int,
    x: int,
    y: int,
    ignore: Option<GenId<DropItem>>,
) -> bool {
    let key = (cx as i32, cy as i32);
    m.contains_key(key) && exists|k: int| 0 <= k < m[key].len() && #[trigger] id_hits(slots, m[key][k], x, y, ignore)
}

/// Whether one of the cells that an item close to `(x, y)` can lie in
/// lists, in index `m`, a handle that `id_hits`.
pub open spec fn indexed_hits(
    slots: Seq<GenEntry<DropItem>>,
    m: Map<(i32, i32), Seq<GenId<DropItem>>>,
    x: int,
    y: int,
    ignore: Option<GenId<DropItem>>,
) -> bool {
    exists|cx: int, cy: int|
        grid_of(x - DROP_ITEM_SIZE_I) <= cx <= grid_of(x + DROP_ITEM_SIZE_I) && grid_of(y - DROP_ITEM_SIZE_I) <= cy <= grid_of(
            y + DROP_ITEM_SIZE_I,
        ) && #[trigger] cell_hit(slots, m, cx, cy, x, y, ignore)
}

/// Whether an item, other than `ignore`, lies close to `(x, y)`, looking
/// only at the items that `index` lists in the cells around it.
pub fn hit_check_with_index(items: &GenSet<DropItem>, index: &DropItemIndex, x: i32, y: i32, ignore: Option<GenId<DropItem>>) -> (ret: bool)
    requires
        index.wf(),
    ensures
        ret == indexed_hits(items.slots(), index.view(), x as int, y as int, ignore),
{
    let chunks = intersecting_chunks(x, y);
    let left = chunks[0];
    let top = chunks[1];
    let right = chunks[2];
    let bottom = chunks[3];
    assert(-0x40_0001 <= left <= right <= 0x40_0001 && -0x40_0001 <= top <= bottom <= 0x40_0001);
    let ghost slots = items.slots();
    let ghost m = index.view();
    let mut cy = top;
    while cy <= bottom
        invariant
            index.wf(),
            slots == items.slots(),
            m == index.view(),
            left == grid_of(x - DROP_ITEM_SIZE_I),
            top == grid_of(y - DROP_ITEM_SIZE_I),
            right == grid_of(x + DROP_ITEM_SIZE_I),
            bottom == grid_of(y + DROP_ITEM_SIZE_I),
            -0x40_0001 <= left <= right <= 0x40_0001,
            -0x40_0001 <= top <= bottom <= 0x40_0001,
            top <= cy <= bottom + 1,
            forall|a: int, b: int| left <= a <= right && top <= b < cy ==> !#[trigger] cell_hit(slots, m, a, b, x as int, y as int, ignore),
        decreases bottom + 1 - cy,
    {
        let mut cx = left;
        while cx <= right
            invariant
                index.wf(),
                slots == items.slots(),
                m == index.view(),
                -0x40_0001 <= left <= right <= 0x40_0001,
                -0x40_0001 <= top <= cy <= bottom <= 0x40_0001,
                left == grid_of(x - DROP_ITEM_SIZE_I),
                top == grid_of(y - DROP_ITEM_SIZE_I),
                right == grid_of(x + DROP_ITEM_SIZE_I),
                bottom == grid_of(y + DROP_ITEM_SIZE_I),
                left <= cx <= right + 1,
                forall|a: int| left <= a < cx ==> !#[trigger] cell_hit(slots, m, a, cy as int, x as int, y as int, ignore),
            decreases right + 1 - cx,
        {
            if let Some(bucket) = index.get((cx, cy)) {
                let mut k: usize = 0;
                while k < bucket.len()
                    invariant
                        slots == items.slots(),
                        m == index.view(),
                        left <= cx <= right,
                        top <= cy <= bottom,
                        left == grid_of(x - DROP_ITEM_SIZE_I),
                        top == grid_of(y - DROP_ITEM_SIZE_I),
                        right == grid_of(x + DROP_ITEM_SIZE_I),
                        bottom == grid_of(y + DROP_ITEM_SIZE_I),
                        m.contains_key((cx, cy)),
                        bucket@ == m[(cx, cy)],
                        k <= bucket@.len(),
                        forall|j: int| 0 <= j < k ==> !#[trigger] id_hits(slots, bucket@[j], x as int, y as int, ignore),
                    decreases bucket@.len() - k,
                {
                    let id = bucket[k];
                    let skip = match ignore {
                        Some(g) => g.id == id.id && g.gen == id.gen,
                        None => false,
                    };
                    if !skip {
                        if let Some(it) = items.get(id) {
                            let dx = x as i64 - it.x as i64;
                            let dy = y as i64 - it.y as i64;
                            if -8 < dx && dx < 8 && -8 < dy && dy < 8 {
                                proof {
                                    assert(id_hits(slots, bucket@[k as int], x as int, y as int, ignore));
                                    assert(cell_hit(slots, m, cx as int, cy as int, x as int, y as int, ignore));
                                    assert(indexed_hits(slots, m, x as int, y as int, ignore));
                                }
                                return true;
                            }
                        }
                    }
                    k += 1;
                }
            }
            cx += 1;
        }
        cy += 1;
    }
    false
}

/// Whether slot `i` holds an item lying in cell `key`.
pub open spec fn in_cell_at(slots: Seq<GenEntry<DropItem>>, i: int, key: (i32, i32)) -> bool {
    match payload_value(slots[i].item) {
        Some(it) => item_cell(it) == key,
        None => false,
    }
}

proof fn lemma_ids_in_cell_sound(slots: Seq<GenEntry<DropItem>>, key: (i32, i32), n: int, k: int)
    requires
        n <= slots.len(),
        0 <= k < ids_in_cell(slots, key, n).len(),
    ensures
        exists|i: int| 0 <= i < n && i < slots.len() && #[trigger] in_cell_at(slots, i, key)
            && ids_in_cell(slots, key, n)[k] == handle::<DropItem>(i, slots[i].gen),
    decreases n,
{
    if n > 0 {
        let prev = ids_in_cell(slots, key, n - 1);
        let cur = ids_in_cell(slots, key, n);
        if k < prev.len() {
            lemma_ids_in_cell_sound(slots, key, n - 1, k);
            let i = choose|i: int| 0 <= i < n - 1 && i < slots.len() && #[trigger] in_cell_at(slots, i, key)
                && prev[k] == handle::<DropItem>(i, slots[i].gen);
            assert(cur[k] == prev[k]);
            assert(0 <= i < n && i < slots.len() && in_cell_at(slots, i, key) && cur[k] == handle::<DropItem>(i, slots[i].gen));
        } else {
            assert(in_cell_at(slots, n - 1, key));
            assert(cur[k] == handle::<DropItem>(n - 1, slots[n - 1].gen));
        }
    }
}

proof fn lemma_ids_in_cell_complete(slots: Seq<GenEntry<DropItem>>, key: (i32, i32), n: int, i: int)
    requires
        0 <= i < n <= slots.len(),
        in_cell_at(slots, i, key),
    ensures
        exists|k: int| 0 <= k < ids_in_cell(slots, key, n).len() && ids_in_cell(slots, key, n)[k] == handle::<DropItem>(i, slots[i].gen),
    decreases n,
{
    if i < n - 1 {
        lemma_ids_in_cell_complete(slots, key, n - 1, i);
        let prev = ids_in_cell(slots, key, n - 1);
        let k = choose|k: int| 0 <= k < prev.len() && prev[k] == handle::<DropItem>(i, slots[i].gen);
        assert(ids_in_cell(slots, key, n)[k] == prev[k]);
    } else {
        let k = ids_in_cell(slots, key, n).len() - 1;
        assert(ids_in_cell(slots, key, n)[k] == handle::<DropItem>(i, slots[i].gen));
    }
}

/// The index finds exactly what a look at every item finds: an item,
/// other than `ignore`, lies close to `(x, y)` if and only if one of the
/// cells around `(x, y)` in the index of the items lists it.
pub proof fn lemma_index_finds_all(slots: Seq<GenEntry<DropItem>>, x: int, y: int, ignore: Option<GenId<DropItem>>)
    requires
        slots.len() <= u32::MAX,
    ensures
        indexed_hits(slots, built_index(slots), x, y, ignore) == hits(slots, x, y, ignore),
{
    let m = built_index(slots);
    let n = slots.len() as int;
    if hits(slots, x, y, ignore) {
        let i = choose|i: int| 0 <= i < slots.len() && #[trigger] hit_at(slots, i, x, y, ignore);
        let it = payload_value(slots[i].item)->0;
        let key = item_cell(it);
        let cx = grid_of(it.x as int);
        let cy = grid_of(it.y as int);
        lemma_div_is_ordered(x - DROP_ITEM_SIZE_I, it.x as int, INDEX_GRID_SIZE as int);
        lemma_div_is_ordered(it.x as int, x + DROP_ITEM_SIZE_I, INDEX_GRID_SIZE as int);
        lemma_div_is_ordered(y - DROP_ITEM_SIZE_I, it.y as int, INDEX_GRID_SIZE as int);
        lemma_div_is_ordered(it.y as int, y + DROP_ITEM_SIZE_I, INDEX_GRID_SIZE as int);
        lemma_ids_in_cell_complete(slots, key, n, i);
        let ids = ids_in_cell(slots, key, n);
        let k = choose|k: int| 0 <= k < ids.len() && ids[k] == handle::<DropItem>(i, slots[i].gen);
        assert(m.contains_key(key));
        assert(key == (cx as i32, cy as i32));
        assert(lookup_in(slots, ids[k]) == payload_value(slots[i].item));
        assert(id_hits(slots, m[key][k], x, y, ignore));
        assert(cell_hit(slots, m, cx, cy, x, y, ignore));
    }
    if indexed_hits(slots, m, x, y, ignore) {
        let (cx, cy) = choose|cx: int, cy: int|
            grid_of(x - DROP_ITEM_SIZE_I) <= cx <= grid_of(x + DROP_ITEM_SIZE_I) && grid_of(y - DROP_ITEM_SIZE_I) <= cy <= grid_of(
                y + DROP_ITEM_SIZE_I,
            ) && #[trigger] cell_hit(slots, m, cx, cy, x, y, ignore);
        let key = (cx as i32, cy as i32);
        let ids = m[key];
        let k = choose|k: int| 0 <= k < ids.len() && #[trigger] id_hits(slots, ids[k], x, y, ignore);
        lemma_ids_in_cell_sound(slots, key, n, k);
        let i = choose|i: int| 0 <= i < n && i < slots.len() && #[trigger] in_cell_at(slots, i, key)
            && ids_in_cell(slots, key, n)[k] == handle::<DropItem>(i, slots[i].gen);
        assert(lookup_in(slots, ids[k]) == payload_value(slots[i].item));
        assert(hit_at(slots, i, x, y, ignore));
    }
}


/// Whether index `m` lists every item of `slots`: the handle of each
/// occupied slot is listed in the cell of its item.
pub open spec fn lists_all(slots: Seq<GenEntry<DropItem>>, m: Map<(i32, i32), Seq<GenId<DropItem>>>) -> bool {
    forall|i: int|
        0 <= i < slots.len() && (#[trigger] slots[i]).item is Occupied ==> cell_ids(
            m,
            item_cell(payload_value(slots[i].item)->0),
        ).contains(handle::<DropItem>(i, slots[i].gen))
}

/// Any index that lists every item finds exactly what a look at every
/// item finds: handles that no longer designate an item are passed over,
/// and every item close to `(x, y)` lies in one of the cells around it.
pub proof fn lemma_listing_index_finds_all(
    slots: Seq<GenEntry<DropItem>>,
    m: Map<(i32, i32), Seq<GenId<DropItem>>>,
    x: int,
    y: int,
    ignore: Option<GenId<DropItem>>,
)
    requires
        slots.len() <= u32::MAX,
        lists_all(slots, m),
    ensures
        indexed_hits(slots, m, x, y, ignore) == hits(slots, x, y, ignore),
{
    if hits(slots, x, y, ignore) {
        let i = choose|i: int| 0 <= i < slots.len() && #[trigger] hit_at(slots, i, x, y, ignore);
        let it = payload_value(slots[i].item)->0;
        let key = item_cell(it);
        let cx = grid_of(it.x as int);
        let cy = grid_of(it.y as int);
        lemma_div_is_ordered(x - DROP_ITEM_SIZE_I, it.x as int, INDEX_GRID_SIZE as int);
        lemma_div_is_ordered(it.x as int, x + DROP_ITEM_SIZE_I, INDEX_GRID_SIZE as int);
        lemma_div_is_ordered(y - DROP_ITEM_SIZE_I, it.y as int, INDEX_GRID_SIZE as int);
        lemma_div_is_ordered(it.y as int, y + DROP_ITEM_SIZE_I, INDEX_GRID_SIZE as int);
        assert(slots[i].item is Occupied);
        let h = handle::<DropItem>(i, slots[i].gen);
        assert(cell_ids(m, key).contains(h));
        assert(m.contains_key(key));
        let k = choose|k: int| 0 <= k < m[key].len() && m[key][k] == h;
        assert(lookup_in(slots, h) == payload_value(slots[i].item));
        assert(id_hits(slots, m[key][k], x, y, ignore));
        assert(key == (cx as i32, cy as i32));
        assert(cell_hit(slots, m, cx, cy, x, y, ignore));
    }
    if indexed_hits(slots, m, x, y, ignore) {
        let (cx, cy) = choose|cx: int, cy: int|
            grid_of(x - DROP_ITEM_SIZE_I) <= cx <= grid_of(x + DROP_ITEM_SIZE_I) && grid_of(y - DROP_ITEM_SIZE_I) <= cy <= grid_of(
                y + DROP_ITEM_SIZE_I,
            ) && #[trigger] cell_hit(slots, m, cx, cy, x, y, ignore);
        let key = (cx as i32, cy as i32);
        let ids = m[key];
        let k = choose|k: int| 0 <= k < ids.len() && #[trigger] id_hits(slots, ids[k], x, y, ignore);
        let id = ids[k];
        assert(hit_at(slots, id.id as int, x, y, ignore));
    }
}

/// An index built from the items lists every item.
pub proof fn lemma_built_index_lists_all(slots: Seq<GenEntry<DropItem>>)
    requires
        slots.len() <= u32::MAX,
    ensures
        lists_all(slots, built_index(slots)),
{
    assert forall|i: int| 0 <= i < slots.len() && (#[trigger] slots[i]).item is Occupied implies cell_ids(
        built_index(slots),
        item_cell(payload_value(slots[i].item)->0),
    ).contains(handle::<DropItem>(i, slots[i].gen)) by {
        let key = item_cell(payload_value(slots[i].item)->0);
        lemma_ids_in_cell_complete(slots, key, slots.len() as int, i);
    }
}

} // verus!
