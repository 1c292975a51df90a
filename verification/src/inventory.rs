//! Item stores: a count per item kind, for the player, chests and machines.
use crate::items::{
    item_at, item_at_spec, item_debug_name, item_debug_str, item_index, item_index_spec,
    lemma_item_index_bijective, lemma_item_at_bijective, ItemType, NUM_ITEM_TYPES,
};
use vstd::prelude::*;
use vstd::array::ArrayAdditionalExecFns;
use vstd::string::StringExecFns;
use vstd::string::StrSliceExecFns;

verus! {

/// The number of items of one kind that one inventory slot holds.
pub const STACK_SIZE: usize = 50;

/// Which of a structure's inventories an operation concerns.
#[derive(Clone, Copy, PartialEq, Eq, Structural, Debug)]
pub enum InventoryType {
    Input,
    Output,
    Storage,
    Burner,
}

/// The count of `t` in `m`, zero when `t` is absent.
pub open spec fn count_of(m: Map<ItemType, usize>, t: ItemType) -> nat {
    if m.contains_key(t) {
        m[t] as nat
    } else {
        0
    }
}

/// `m` after adding `count` items of kind `t`: nothing changes when
/// `count` is zero, otherwise the entry of `t` grows by `count`.
pub open spec fn added(m: Map<ItemType, usize>, t: ItemType, count: nat) -> Map<ItemType, usize> {
    if count == 0 {
        m
    } else {
        m.insert(t, (count_of(m, t) + count) as usize)
    }
}

/// `m` after removing up to `count` items of kind `t`, and how many were
/// removed: an entry of no more than `count` goes away whole.
pub open spec fn removed(m: Map<ItemType, usize>, t: ItemType, count: nat) -> (Map<ItemType, usize>, nat) {
    if !m.contains_key(t) {
        (m, 0)
    } else if m[t] <= count {
        (m.remove(t), m[t] as nat)
    } else {
        (m.insert(t, (m[t] - count) as usize), count)
    }
}

/// The entries of `m` among the first `n` item kinds, in declaration order.
pub open spec fn entries_upto(m: Map<ItemType, usize>, n: int) -> Seq<(ItemType, usize)>
    decreases n,
{
    if n <= 0 {
        Seq::empty()
    } else if m.contains_key(item_at_spec(n - 1)) {
        entries_upto(m, n - 1).push((item_at_spec(n - 1), m[item_at_spec(n - 1)]))
    } else {
        entries_upto(m, n - 1)
    }
}

/// The entries of `m`, in declaration order of the item kinds.
pub open spec fn entries_of(m: Map<ItemType, usize>) -> Seq<(ItemType, usize)> {
    entries_upto(m, NUM_ITEM_TYPES as int)
}

/// The number of slots that `amount` items of one kind take: one per full
/// or partial stack, and one for an empty entry.
pub open spec fn stack_slots(amount: nat) -> nat
    decreases amount,
{
    if amount <= STACK_SIZE {
        1
    } else {
        1 + stack_slots((amount - STACK_SIZE) as nat)
    }
}

/// The total number of slots that the entries take.
pub open spec fn slots_of(entries: Seq<(ItemType, usize)>) -> nat
    decreases entries.len(),
{
    if entries.len() == 0 {
        0
    } else {
        slots_of(entries.drop_last()) + stack_slots(entries.last().1 as nat)
    }
}

/// The decimal digits of `n`.
pub open spec fn decimal(n: nat) -> Seq<char>
    decreases n,
{
    if n < 10 {
        seq![digit_char(n)]
    } else {
        decimal(n / 10) + seq![digit_char(n % 10)]
    }
}

/// The character of a decimal digit.
pub open spec fn digit_char(d: nat) -> char {
    if d == 0 {
        '0'
    } else if d == 1 {
        '1'
    } else if d == 2 {
        '2'
    } else if d == 3 {
        '3'
    } else if d == 4 {
        '4'
    } else if d == 5 {
        '5'
    } else if d == 6 {
        '6'
    } else if d == 7 {
        '7'
    } else if d == 8 {
        '8'
    } else {
        '9'
    }
}

/// The text describing entries: `Name: count<br>` for each, in order.
pub open spec fn describe_entries(entries: Seq<(ItemType, usize)>) -> Seq<char>
    decreases entries.len(),
{
    if entries.len() == 0 {
        Seq::empty()
    } else {
        describe_entries(entries.drop_last()) + item_debug_name(entries.last().0) + ": "@
            + decimal(entries.last().1 as nat) + "<br>"@
    }
}

/// Whether `m` holds at least the count of every entry of `need`.
pub open spec fn holds_all(m: Map<ItemType, usize>, need: Map<ItemType, usize>) -> bool {
    forall|t: ItemType| #[trigger] need.contains_key(t) ==> need[t] <= count_of(m, t)
}

/// `m` after removing, for each entry of `need`, up to its count of that
/// kind (see [`removed`]).
pub open spec fn subtracted(m: Map<ItemType, usize>, need: Map<ItemType, usize>) -> Map<ItemType, usize> {
    Map::new(
        |t: ItemType| m.contains_key(t) && !(need.contains_key(t) && m[t] <= need[t]),
        |t: ItemType| if need.contains_key(t) { (m[t] - need[t]) as usize } else { m[t] },
    )
}

/// `m` after adding, for each entry of `more`, its count of that kind
/// (see [`added`]: entries of count zero add nothing).
pub open spec fn added_all(m: Map<ItemType, usize>, more: Map<ItemType, usize>) -> Map<ItemType, usize> {
    Map::new(
        |t: ItemType| m.contains_key(t) || (more.contains_key(t) && more[t] > 0),
        |t: ItemType| (count_of(m, t) + count_of(more, t)) as usize,
    )
}

/// One item of each kind that `m` has an entry for.
pub open spec fn one_of_each(m: Map<ItemType, usize>) -> Map<ItemType, usize> {
    Map::new(|t: ItemType| m.contains_key(t), |t: ItemType| 1usize)
}

/// The result of merging `b` into `a`: counts of kinds in both are summed.
pub open spec fn merged(a: Map<ItemType, usize>, b: Map<ItemType, usize>) -> Map<ItemType, usize> {
    Map::new(
        |t: ItemType| a.contains_key(t) || b.contains_key(t),
        |t: ItemType| (count_of(a, t) + count_of(b, t)) as usize,
    )
}

/// An inventory: a count for each item kind that it holds. A kind may be
/// held with a count of zero.
pub struct Inventory {
    counts: [Option<usize>; NUM_ITEM_TYPES],
}

impl View for Inventory {
    type V = Map<ItemType, usize>;

    closed spec fn view(&self) -> Map<ItemType, usize> {
        map_of_counts(self.counts@)
    }
}

/// The map that a count per item position stands for.
spec fn map_of_counts(counts: Seq<Option<usize>>) -> Map<ItemType, usize> {
    Map::new(
        |t: ItemType| counts[item_index_spec(t)] is Some,
        |t: ItemType| counts[item_index_spec(t)]->0,
    )
}

/// Setting the count at an item's position sets or clears its entry.
proof fn lemma_set_count(counts: Seq<Option<usize>>, item: ItemType, c: Option<usize>)
    requires
        counts.len() == NUM_ITEM_TYPES,
    ensures
        map_of_counts(counts.update(item_index_spec(item), c)) == (match c {
            Some(v) => map_of_counts(counts).insert(item, v),
            None => map_of_counts(counts).remove(item),
        }),
{
    assert forall|t: ItemType| item_index_spec(t) == item_index_spec(item) implies t == item by {
        lemma_item_index_bijective(t);
        lemma_item_index_bijective(item);
    }
    lemma_item_index_bijective(item);
    match c {
        Some(v) => {
            assert(map_of_counts(counts.update(item_index_spec(item), c)) =~= map_of_counts(
                counts,
            ).insert(item, v));
        },
        None => {
            assert(map_of_counts(counts.update(item_index_spec(item), c)) =~= map_of_counts(
                counts,
            ).remove(item));
        },
    }
}

impl Clone for Inventory {
    fn clone(&self) -> (ret: Self)
        ensures
            ret@ == self@,
    {
        Inventory { counts: self.counts }
    }
}

/// A stack of `amount` items takes at most one slot per `STACK_SIZE` items
/// and one more.
proof fn lemma_stack_slots_bound(amount: nat)
    ensures
        stack_slots(amount) <= amount / (STACK_SIZE as nat) + 1,
    decreases amount,
{
    if amount > STACK_SIZE {
        lemma_stack_slots_bound((amount - STACK_SIZE) as nat);
    }
}

/// Appends the decimal digits of `n` to `s`.
pub fn write_decimal(s: &mut String, n: usize)
    ensures
        final(s)@ == old(s)@ + decimal(n as nat),
    decreases n,
{
    if n >= 10 {
        write_decimal(s, n / 10);
    }
    let d = n % 10;
    let digit = if d == 0 {
        "0"
    } else if d == 1 {
        "1"
    } else if d == 2 {
        "2"
    } else if d == 3 {
        "3"
    } else if d == 4 {
        "4"
    } else if d == 5 {
        "5"
    } else if d == 6 {
        "6"
    } else if d == 7 {
        "7"
    } else if d == 8 {
        "8"
    } else {
        "9"
    };
    proof {
        reveal_strlit("0");
        reveal_strlit("1");
        reveal_strlit("2");
        reveal_strlit("3");
        reveal_strlit("4");
        reveal_strlit("5");
        reveal_strlit("6");
        reveal_strlit("7");
        reveal_strlit("8");
        reveal_strlit("9");
        assert(digit@ =~= seq![digit_char(d as nat)]);
    }
    s.append(digit);
    proof {
        if n >= 10 {
            assert(old(s)@ + decimal(n as nat) =~= old(s)@ + decimal((n / 10) as nat) + seq![digit_char(d as nat)]);
        } else {
            assert(decimal(n as nat) =~= seq![digit_char(n as nat)]);
        }
    }
}

impl Inventory {
    /// An empty inventory.
    pub fn new() -> (ret: Self)
        ensures
            ret@ == Map::<ItemType, usize>::empty(),
    {
        let ret = Inventory { counts: [None; NUM_ITEM_TYPES] };
        assert(ret@ =~= Map::<ItemType, usize>::empty());
        ret
    }

    /// The count of `item`, zero when it is absent.
    pub fn count_item(&self, item: &ItemType) -> (ret: usize)
        ensures
            ret == count_of(self@, *item),
    {
        let i = item_index(item);
        match self.counts[i] {
            Some(c) => c,
            None => 0,
        }
    }

    /// Whether `item` has an entry (possibly of count zero).
    pub fn contains_key(&self, item: &ItemType) -> (ret: bool)
        ensures
            ret == self@.contains_key(*item),
    {
        let i = item_index(item);
        self.counts[i].is_some()
    }

    /// The entry of `item`, if any.
    pub fn get(&self, item: &ItemType) -> (ret: Option<usize>)
        ensures
            ret == (if self@.contains_key(*item) {
                Some(self@[*item])
            } else {
                None
            }),
    {
        let i = item_index(item);
        self.counts[i]
    }

    /// Sets the entry of `item` to `count`.
    pub fn insert(&mut self, item: &ItemType, count: usize)
        ensures
            final(self)@ == old(self)@.insert(*item, count),
    {
        let i = item_index(item);
        proof {
            lemma_set_count(self.counts@, *item, Some(count));
        }
        self.counts[i] = Some(count);
    }

    /// Removes the entry of `item` and returns it.
    pub fn remove(&mut self, item: &ItemType) -> (ret: Option<usize>)
        ensures
            ret == (if old(self)@.contains_key(*item) {
                Some(old(self)@[*item])
            } else {
                None
            }),
            final(self)@ == old(self)@.remove(*item),
    {
        let i = item_index(item);
        proof {
            lemma_set_count(self.counts@, *item, None);
        }
        let ret = self.counts[i];
        self.counts[i] = None;
        ret
    }

    /// Adds `count` items of kind `item`. Adding none leaves the inventory
    /// as it is (no entry is made).
    pub fn add_items(&mut self, item: &ItemType, count: usize)
        requires
            count_of(old(self)@, *item) + count <= usize::MAX,
        ensures
            final(self)@ == added(old(self)@, *item, count as nat),
    {
        if count == 0 {
            return;
        }
        let i = item_index(item);
        let new_count = match self.counts[i] {
            Some(c) => c + count,
            None => count,
        };
        proof {
            lemma_set_count(self.counts@, *item, Some(new_count));
        }
        self.counts[i] = Some(new_count);
    }

    /// Adds one item of kind `item`.
    pub fn add_item(&mut self, item: &ItemType)
        requires
            count_of(old(self)@, *item) + 1 <= usize::MAX,
        ensures
            final(self)@ == old(self)@.insert(*item, (count_of(old(self)@, *item) + 1) as usize),
    {
        self.add_items(item, 1);
    }

    /// Removes up to `count` items of kind `item` and returns how many were
    /// removed. When no more than `count` are held, the entry goes away.
    pub fn remove_items(&mut self, item: &ItemType, count: usize) -> (ret: usize)
        ensures
            (final(self)@, ret as nat) == removed(old(self)@, *item, count as nat),
    {
        let i = item_index(item);
        match self.counts[i] {
            Some(c) => {
                if c <= count {
                    proof {
                        lemma_set_count(self.counts@, *item, None);
                    }
                    self.counts[i] = None;
                    c
                } else {
                    proof {
                        lemma_set_count(self.counts@, *item, Some((c - count) as usize));
                    }
                    self.counts[i] = Some(c - count);
                    count
                }
            },
            None => 0,
        }
    }

    /// Merges `other` into this inventory: counts of kinds held by both are
    /// summed, other kinds are taken over as they are.
    pub fn merge(&mut self, other: Inventory)
        requires
            forall|t: ItemType| count_of(old(self)@, t) + count_of(other@, t) <= usize::MAX,
        ensures
            final(self)@ == merged(old(self)@, other@),
    {
        let ghost old_counts = self.counts@;
        let mut i: usize = 0;
        while i < NUM_ITEM_TYPES
            invariant
                i <= NUM_ITEM_TYPES,
                self.counts@.len() == NUM_ITEM_TYPES,
                old_counts.len() == NUM_ITEM_TYPES,
                other.counts@.len() == NUM_ITEM_TYPES,
                forall|t: ItemType| count_of(map_of_counts(old_counts), t) + count_of(other@, t) <= usize::MAX,
                forall|j: int| i <= j < NUM_ITEM_TYPES ==> #[trigger] self.counts@[j] == old_counts[j],
                forall|j: int|
                    0 <= j < i ==> #[trigger] self.counts@[j] == (match (old_counts[j], other.counts@[j]) {
                        (Some(a), Some(b)) => Some((a + b) as usize),
                        (None, Some(b)) => Some(b),
                        (a, None) => a,
                    }),
            decreases NUM_ITEM_TYPES - i,
        {
            match other.counts[i] {
                Some(b) => {
                    proof {
                        lemma_item_at_bijective(i as int);
                        let t = item_at_spec(i as int);
                        assert(count_of(map_of_counts(old_counts), t) + count_of(other@, t) <= usize::MAX);
                    }
                    let v = match self.counts[i] {
                        Some(a) => a + b,
                        None => b,
                    };
                    self.counts[i] = Some(v);
                },
                None => {},
            }
            i = i + 1;
        }
        proof {
            assert forall|t: ItemType| #[trigger] merged(map_of_counts(old_counts), other@).contains_key(t) == map_of_counts(self.counts@).contains_key(t)
                && (map_of_counts(self.counts@).contains_key(t) ==> merged(map_of_counts(old_counts), other@)[t] == map_of_counts(self.counts@)[t]) by {
                lemma_item_index_bijective(t);
            }
            assert(map_of_counts(self.counts@) =~= merged(map_of_counts(old_counts), other@));
        }
    }

    /// The entries, in declaration order of the item kinds.
    pub fn entries(&self) -> (ret: Vec<(ItemType, usize)>)
        ensures
            ret@ == entries_of(self@),
    {
        let mut ret: Vec<(ItemType, usize)> = Vec::new();
        let mut i: usize = 0;
        while i < NUM_ITEM_TYPES
            invariant
                i <= NUM_ITEM_TYPES,
                self.counts@.len() == NUM_ITEM_TYPES,
                ret@ == entries_upto(self@, i as int),
            decreases NUM_ITEM_TYPES - i,
        {
            proof {
                lemma_item_at_bijective(i as int);
            }
            match self.counts[i] {
                Some(c) => {
                    ret.push((item_at(i), c));
                },
                None => {},
            }
            i = i + 1;
        }
        ret
    }

    /// The number of entries.
    pub fn len(&self) -> (ret: usize)
        ensures
            ret == entries_of(self@).len(),
    {
        let mut ret: usize = 0;
        let mut i: usize = 0;
        while i < NUM_ITEM_TYPES
            invariant
                i <= NUM_ITEM_TYPES,
                self.counts@.len() == NUM_ITEM_TYPES,
                ret == entries_upto(self@, i as int).len(),
                ret <= i,
            decreases NUM_ITEM_TYPES - i,
        {
            proof {
                lemma_item_at_bijective(i as int);
            }
            if self.counts[i].is_some() {
                ret = ret + 1;
            }
            i = i + 1;
        }
        ret
    }

    /// The number of inventory slots that the entries take: one per full
    /// or partial stack of `STACK_SIZE`, and one for an empty entry.
    pub fn count_slots(&self) -> (ret: usize)
        ensures
            ret == slots_of(entries_of(self@)),
    {
        let bound: usize = usize::MAX / STACK_SIZE + 1;
        proof {
            assert(NUM_ITEM_TYPES * bound <= usize::MAX) by (nonlinear_arith)
                requires
                    bound == usize::MAX / 50 + 1,
                    usize::MAX >= 0xffff_ffff;
        }
        let mut ret: usize = 0;
        let mut i: usize = 0;
        while i < NUM_ITEM_TYPES
            invariant
                i <= NUM_ITEM_TYPES,
                self.counts@.len() == NUM_ITEM_TYPES,
                bound == usize::MAX / STACK_SIZE + 1,
                NUM_ITEM_TYPES * bound <= usize::MAX,
                ret == slots_of(entries_upto(self@, i as int)),
                ret <= i * bound,
            decreases NUM_ITEM_TYPES - i,
        {
            proof {
                lemma_item_at_bijective(i as int);
            }
            match self.counts[i] {
                Some(c) => {
                    let mut amount = c;
                    let mut k: usize = 0;
                    proof {
                        lemma_stack_slots_bound(c as nat);
                    }
                    while STACK_SIZE < amount
                        invariant
                            k + stack_slots(amount as nat) == stack_slots(c as nat),
                            stack_slots(c as nat) <= c / STACK_SIZE + 1,
                            amount <= c,
                            bound == usize::MAX / STACK_SIZE + 1,
                        decreases amount,
                    {
                        k = k + 1;
                        amount = amount - STACK_SIZE;
                    }
                    proof {
                        lemma_stack_slots_bound(c as nat);
                        assert(stack_slots(c as nat) <= bound);
                        assert((i + 1) * bound == i * bound + bound) by (nonlinear_arith);
                        assert(i * bound + bound <= NUM_ITEM_TYPES * bound) by (nonlinear_arith)
                            requires i + 1 <= NUM_ITEM_TYPES;
                        let e = entries_upto(self@, i as int + 1);
                        assert(e.drop_last() =~= entries_upto(self@, i as int));
                    }
                    ret = ret + k + 1;
                },
                None => {
                    proof {
                        assert((i + 1) * bound == i * bound + bound) by (nonlinear_arith);
                    }
                },
            }
            i = i + 1;
        }
        ret
    }

    /// The text `Name: count<br>` for each entry, in declaration order of
    /// the item kinds.
    pub fn describe(&self) -> (ret: String)
        ensures
            ret@ == describe_entries(entries_of(self@)),
    {
        let mut ret = String::new();
        let mut i: usize = 0;
        while i < NUM_ITEM_TYPES
            invariant
                i <= NUM_ITEM_TYPES,
                self.counts@.len() == NUM_ITEM_TYPES,
                ret@ == describe_entries(entries_upto(self@, i as int)),
            decreases NUM_ITEM_TYPES - i,
        {
            proof {
                lemma_item_at_bijective(i as int);
            }
            match self.counts[i] {
                Some(c) => {
                    let t = item_at(i);
                    ret.append(item_debug_str(&t));
                    ret.append(": ");
                    write_decimal(&mut ret, c);
                    ret.append("<br>");
                    proof {
                        let e = entries_upto(self@, i as int + 1);
                        assert(e.drop_last() =~= entries_upto(self@, i as int));
                    }
                },
                None => {},
            }
            i = i + 1;
        }
        ret
    }

    /// Empties the inventory and returns what it held.
    pub fn take_all(&mut self) -> (ret: Inventory)
        ensures
            ret@ == old(self)@,
            final(self)@ == Map::<ItemType, usize>::empty(),
    {
        let ret = Inventory { counts: self.counts };
        self.counts = [None; NUM_ITEM_TYPES];
        assert(map_of_counts(self.counts@) =~= Map::<ItemType, usize>::empty());
        ret
    }

    /// Whether this inventory holds at least the count of every entry of
    /// `need`.
    pub fn has_all(&self, need: &Inventory) -> (ret: bool)
        ensures
            ret == holds_all(self@, need@),
    {
        let mut i: usize = 0;
        while i < NUM_ITEM_TYPES
            invariant
                i <= NUM_ITEM_TYPES,
                forall|j: int|
                    0 <= j < i ==> (#[trigger] need.counts@[j] matches Some(n) ==> n <= match self.counts@[j] {
                        Some(c) => c as int,
                        None => 0,
                    }),
            decreases NUM_ITEM_TYPES - i,
        {
            match need.counts[i] {
                Some(n) => {
                    let have = match self.counts[i] {
                        Some(c) => c,
                        None => 0,
                    };
                    if have < n {
                        proof {
                            lemma_item_at_bijective(i as int);
                            let t = item_at_spec(i as int);
                            assert(need@.contains_key(t));
                        }
                        return false;
                    }
                },
                None => {},
            }
            i = i + 1;
        }
        proof {
            assert forall|t: ItemType| #[trigger] need@.contains_key(t) implies need@[t] <= count_of(self@, t) by {
                lemma_item_index_bijective(t);
                assert(need.counts@[item_index_spec(t)] is Some);
            }
        }
        true
    }

    /// Removes, for each entry of `need`, up to its count of that kind.
    pub fn remove_all(&mut self, need: &Inventory)
        ensures
            final(self)@ == subtracted(old(self)@, need@),
    {
        let ghost old_counts = self.counts@;
        let mut i: usize = 0;
        while i < NUM_ITEM_TYPES
            invariant
                i <= NUM_ITEM_TYPES,
                old_counts.len() == NUM_ITEM_TYPES,
                forall|j: int| i <= j < NUM_ITEM_TYPES ==> #[trigger] self.counts@[j] == old_counts[j],
                forall|j: int|
                    0 <= j < i ==> #[trigger] self.counts@[j] == match (old_counts[j], need.counts@[j]) {
                        (Some(c), Some(n)) => if c <= n { None } else { Some((c - n) as usize) },
                        (c, None) => c,
                        (None, _) => None,
                    },
            decreases NUM_ITEM_TYPES - i,
        {
            match need.counts[i] {
                Some(n) => {
                    match self.counts[i] {
                        Some(c) => {
                            if c <= n {
                                self.counts[i] = None;
                            } else {
                                self.counts[i] = Some(c - n);
                            }
                        },
                        None => {},
                    }
                },
                None => {},
            }
            i = i + 1;
        }
        proof {
            assert forall|t: ItemType| #[trigger] subtracted(map_of_counts(old_counts), need@).contains_key(t) == map_of_counts(self.counts@).contains_key(t)
                && (map_of_counts(self.counts@).contains_key(t) ==> subtracted(map_of_counts(old_counts), need@)[t] == map_of_counts(self.counts@)[t]) by {
                lemma_item_index_bijective(t);
            }
            assert(map_of_counts(self.counts@) =~= subtracted(map_of_counts(old_counts), need@));
        }
    }

    /// Adds, for each entry of `more`, its count of that kind.
    pub fn add_all(&mut self, more: &Inventory)
        requires
            forall|t: ItemType| count_of(old(self)@, t) + count_of(more@, t) <= usize::MAX,
        ensures
            final(self)@ == added_all(old(self)@, more@),
    {
        let ghost old_counts = self.counts@;
        let mut i: usize = 0;
        while i < NUM_ITEM_TYPES
            invariant
                i <= NUM_ITEM_TYPES,
                old_counts.len() == NUM_ITEM_TYPES,
                forall|t: ItemType| count_of(map_of_counts(old_counts), t) + count_of(more@, t) <= usize::MAX,
                forall|j: int| i <= j < NUM_ITEM_TYPES ==> #[trigger] self.counts@[j] == old_counts[j],
                forall|j: int|
                    0 <= j < i ==> #[trigger] self.counts@[j] == match (old_counts[j], more.counts@[j]) {
                        (Some(c), Some(n)) => Some((c + n) as usize),
                        (None, Some(n)) => if n == 0 { None } else { Some(n) },
                        (c, None) => c,
                    },
            decreases NUM_ITEM_TYPES - i,
        {
            match more.counts[i] {
                Some(n) => {
                    if n != 0 {
                        proof {
                            lemma_item_at_bijective(i as int);
                            let t = item_at_spec(i as int);
                            assert(count_of(map_of_counts(old_counts), t) + count_of(more@, t) <= usize::MAX);
                        }
                        let v = match self.counts[i] {
                            Some(c) => c + n,
                            None => n,
                        };
                        self.counts[i] = Some(v);
                    }
                },
                None => {},
            }
            i = i + 1;
        }
        proof {
            assert forall|t: ItemType| #[trigger] added_all(map_of_counts(old_counts), more@).contains_key(t) == map_of_counts(self.counts@).contains_key(t)
                && (map_of_counts(self.counts@).contains_key(t) ==> added_all(map_of_counts(old_counts), more@)[t] == map_of_counts(self.counts@)[t]) by {
                lemma_item_index_bijective(t);
            }
            assert(map_of_counts(self.counts@) =~= added_all(map_of_counts(old_counts), more@));
        }
    }

    /// One item of each kind that this inventory has an entry for.
    pub fn one_of_each(&self) -> (ret: Inventory)
        ensures
            ret@ == one_of_each(self@),
    {
        let mut counts = self.counts;
        let mut i: usize = 0;
        while i < NUM_ITEM_TYPES
            invariant
                i <= NUM_ITEM_TYPES,
                forall|j: int| i <= j < NUM_ITEM_TYPES ==> #[trigger] counts@[j] == self.counts@[j],
                forall|j: int| 0 <= j < i ==> #[trigger] counts@[j] == (if self.counts@[j] is Some { Some(1usize) } else { None }),
            decreases NUM_ITEM_TYPES - i,
        {
            if counts[i].is_some() {
                counts[i] = Some(1);
            }
            i = i + 1;
        }
        let ret = Inventory { counts };
        proof {
            assert forall|t: ItemType| #[trigger] one_of_each(self@).contains_key(t) == ret@.contains_key(t)
                && (ret@.contains_key(t) ==> one_of_each(self@)[t] == ret@[t]) by {
                lemma_item_index_bijective(t);
            }
            assert(ret@ =~= one_of_each(self@));
        }
        ret
    }

    /// Removes one item of kind `item`; says whether one was removed.
    pub fn remove_item(&mut self, item: &ItemType) -> (ret: bool)
        ensures
            ret == (removed(old(self)@, *item, 1).1 != 0),
            ret == (count_of(old(self)@, *item) > 0),
            final(self)@ == removed(old(self)@, *item, 1).0,
    {
        self.remove_items(item, 1) != 0
    }
}


/// Splits `inventory` by `filter`: the entries whose kind `filter` accepts
/// are returned; the others are added to `residual`.
pub fn filter_inventory(
    inventory: Inventory,
    filter: impl Fn(&ItemType) -> bool,
    residual: &mut Inventory,
) -> (ret: Inventory)
    requires
        forall|t: &ItemType| #[trigger] filter.requires((t,)),
        forall|t: ItemType| count_of(old(residual)@, t) + count_of(inventory@, t) <= usize::MAX,
    ensures
        forall|t: ItemType|
            #![trigger ret@.contains_key(t)]
            #![trigger final(residual)@.contains_key(t)]
            if !inventory@.contains_key(t) {
                &&& !ret@.contains_key(t)
                &&& final(residual)@.contains_key(t) == old(residual)@.contains_key(t)
                &&& count_of(final(residual)@, t) == count_of(old(residual)@, t)
            } else {
                ||| {
                    &&& filter.ensures((&t,), true)
                    &&& ret@.contains_key(t)
                    &&& ret@[t] == inventory@[t]
                    &&& final(residual)@.contains_key(t) == old(residual)@.contains_key(t)
                    &&& count_of(final(residual)@, t) == count_of(old(residual)@, t)
                }
                ||| {
                    &&& filter.ensures((&t,), false)
                    &&& !ret@.contains_key(t)
                    &&& final(residual)@.contains_key(t) == (old(residual)@.contains_key(t)
                        || inventory@[t] > 0)
                    &&& count_of(final(residual)@, t) == count_of(old(residual)@, t)
                        + inventory@[t]
                }
            },
        forall|t: ItemType|
            #![trigger count_of(ret@, t)]
            count_of(ret@, t) + count_of(final(residual)@, t) == count_of(inventory@, t) + count_of(
                old(residual)@,
                t,
            ),
{
    let mut ret = Inventory::new();
    let entries = inventory.entries();
    let mut i: usize = 0;
    let ghost old_res = residual@;
    proof {
        lemma_entries_of(inventory@);
    }
    while i < entries.len()
        invariant
            i <= entries@.len(),
            entries@ == entries_of(inventory@),
            forall|t: &ItemType| #[trigger] filter.requires((t,)),
            forall|t: ItemType| count_of(old_res, t) + count_of(inventory@, t) <= usize::MAX,
            forall|k: int| 0 <= k < entries@.len() ==> inventory@.contains_key(#[trigger] entries@[k].0) && inventory@[entries@[k].0] == entries@[k].1,
            forall|k: int, l: int| 0 <= k < l < entries@.len() ==> #[trigger] entries@[k].0 != #[trigger] entries@[l].0,
            forall|t: ItemType| inventory@.contains_key(t) ==> exists|k: int| 0 <= k < entries@.len() && #[trigger] entries@[k].0 == t,
            forall|t: ItemType|
                #![trigger ret@.contains_key(t)]
                #![trigger residual@.contains_key(t)]
                (forall|k: int| 0 <= k < i ==> #[trigger] entries@[k].0 != t) ==> {
                    &&& !ret@.contains_key(t)
                    &&& residual@.contains_key(t) == old_res.contains_key(t)
                    &&& count_of(residual@, t) == count_of(old_res, t)
                },
            forall|k: int|
                #![trigger entries@[k]]
                0 <= k < i ==> {
                    let t = entries@[k].0;
                    ||| {
                        &&& filter.ensures((&t,), true)
                        &&& ret@.contains_key(t)
                        &&& ret@[t] == inventory@[t]
                        &&& residual@.contains_key(t) == old_res.contains_key(t)
                        &&& count_of(residual@, t) == count_of(old_res, t)
                    }
                    ||| {
                        &&& filter.ensures((&t,), false)
                        &&& !ret@.contains_key(t)
                        &&& residual@.contains_key(t) == (old_res.contains_key(t) || inventory@[t] > 0)
                        &&& count_of(residual@, t) == count_of(old_res, t) + inventory@[t]
                    }
                },
        decreases entries@.len() - i,
    {
        let (item, count) = entries[i];
        let ghost before_ret = ret@;
        let ghost before_res = residual@;
        if filter(&item) {
            ret.insert(&item, count);
        } else {
            proof {
                assert(count_of(residual@, item) == count_of(old_res, item)) by {
                    assert(forall|k: int| 0 <= k < i ==> #[trigger] entries@[k].0 != item);
                }
            }
            residual.add_items(&item, count);
        }
        proof {
            assert forall|k: int| 0 <= k < i implies #[trigger] entries@[k].0 != item by {
                assert(entries@[k].0 != entries@[i as int].0);
            }
        }
        i = i + 1;
    }
    ret
}

/// Removing what was just added gives back the inventory that was there
/// before, whether or not the kind was held (an entry of count zero is
/// the exception: it goes away).
pub proof fn lemma_remove_undoes_add(m: Map<ItemType, usize>, t: ItemType, count: nat)
    requires
        count > 0,
        m.contains_key(t) ==> m[t] > 0,
        count_of(m, t) + count <= usize::MAX,
    ensures
        removed(added(m, t, count), t, count).0 == m,
        removed(added(m, t, count), t, count).1 == count,
{
    if m.contains_key(t) {
        assert(removed(added(m, t, count), t, count).0 =~= m);
    } else {
        assert(removed(added(m, t, count), t, count).0 =~= m);
    }
}

/// Items are neither made nor lost: adding raises the count of the kind by
/// the amount added, removing lowers it by the amount reported removed,
/// which is never more than was held or asked for, and other kinds keep
/// their counts.
pub proof fn lemma_counts_conserved(m: Map<ItemType, usize>, t: ItemType, count: nat, u: ItemType)
    requires
        count_of(m, t) + count <= usize::MAX,
    ensures
        count_of(added(m, t, count), t) == count_of(m, t) + count,
        count_of(removed(m, t, count).0, t) + removed(m, t, count).1 == count_of(m, t),
        removed(m, t, count).1 <= count,
        u != t ==> count_of(added(m, t, count), u) == count_of(m, u),
        u != t ==> count_of(removed(m, t, count).0, u) == count_of(m, u),
{
}

/// Taking out everything that `need` asks for and then adding it back
/// restores every count: starting a run and then giving its ingredients
/// back loses and makes nothing.
pub proof fn lemma_subtract_then_merge_restores(m: Map<ItemType, usize>, need: Map<ItemType, usize>, t: ItemType)
    requires
        holds_all(m, need),
    ensures
        count_of(merged(subtracted(m, need), need), t) == count_of(m, t),
{
    if need.contains_key(t) {
        assert(need[t] <= count_of(m, t));
    }
}

/// Merging sums the counts of every kind.
pub proof fn lemma_merge_sums(a: Map<ItemType, usize>, b: Map<ItemType, usize>, t: ItemType)
    requires
        count_of(a, t) + count_of(b, t) <= usize::MAX,
    ensures
        count_of(merged(a, b), t) == count_of(a, t) + count_of(b, t),
{
}

/// A stack takes one slot per `STACK_SIZE` items, rounded up, and an
/// empty entry takes one slot.
pub proof fn lemma_stack_slots_closed_form(amount: nat)
    ensures
        amount == 0 ==> stack_slots(amount) == 1,
        amount > 0 ==> stack_slots(amount) == (amount + STACK_SIZE - 1) / (STACK_SIZE as int),
    decreases amount,
{
    if amount > STACK_SIZE {
        lemma_stack_slots_closed_form((amount - STACK_SIZE) as nat);
        assert((amount + STACK_SIZE - 1) / (STACK_SIZE as int) == ((amount - STACK_SIZE) as nat + STACK_SIZE - 1) / (STACK_SIZE as int) + 1);
    }
}

/// The entries of an inventory are its entries, each kind once.
pub proof fn lemma_entries_of(m: Map<ItemType, usize>)
    ensures
        forall|k: int| 0 <= k < entries_of(m).len() ==> m.contains_key(#[trigger] entries_of(m)[k].0) && m[entries_of(m)[k].0] == entries_of(m)[k].1,
        forall|k: int, l: int| 0 <= k < l < entries_of(m).len() ==> #[trigger] entries_of(m)[k].0 != #[trigger] entries_of(m)[l].0,
        forall|t: ItemType| m.contains_key(t) ==> exists|k: int| 0 <= k < entries_of(m).len() && #[trigger] entries_of(m)[k].0 == t,
{
    lemma_entries_upto(m, NUM_ITEM_TYPES as int);
    assert forall|t: ItemType| m.contains_key(t) implies exists|k: int| 0 <= k < entries_of(m).len() && #[trigger] entries_of(m)[k].0 == t by {
        lemma_item_index_bijective(t);
        lemma_entries_upto_contains(m, NUM_ITEM_TYPES as int, t);
        let k = choose|k: int| 0 <= k < entries_upto(m, NUM_ITEM_TYPES as int).len() && #[trigger] entries_upto(m, NUM_ITEM_TYPES as int)[k].0 == t;
        assert(entries_of(m)[k].0 == t);
    }
}

/// An inventory with entries for one kind lists that one entry.
pub proof fn lemma_entries_of_single(t: ItemType, n: usize)
    ensures
        entries_of(map![t => n]) == seq![(t, n)],
{
    let m = map![t => n];
    let e = entries_of(m);
    lemma_entries_of(m);
    assert(m.contains_key(t));
    let k = choose|k: int| 0 <= k < e.len() && #[trigger] e[k].0 == t;
    if e.len() > 1 {
        assert(e[0].0 == t && e[1].0 == t);
    }
    assert(e.len() == 1);
    assert(e[0] == (t, n));
    assert(e =~= seq![(t, n)]);
}

proof fn lemma_entries_upto(m: Map<ItemType, usize>, n: int)
    requires
        0 <= n <= NUM_ITEM_TYPES,
    ensures
        forall|k: int| 0 <= k < entries_upto(m, n).len() ==> m.contains_key(#[trigger] entries_upto(m, n)[k].0) && m[entries_upto(m, n)[k].0] == entries_upto(m, n)[k].1
            && 0 <= item_index_spec(entries_upto(m, n)[k].0) < n,
        forall|k: int, l: int| 0 <= k < l < entries_upto(m, n).len() ==> item_index_spec(#[trigger] entries_upto(m, n)[k].0) < item_index_spec(#[trigger] entries_upto(m, n)[l].0),
    decreases n,
{
    if n > 0 {
        lemma_entries_upto(m, n - 1);
        lemma_item_at_bijective(n - 1);
        let prev = entries_upto(m, n - 1);
        let cur = entries_upto(m, n);
        if m.contains_key(item_at_spec(n - 1)) {
            assert forall|k: int| 0 <= k < cur.len() implies m.contains_key(#[trigger] cur[k].0) && m[cur[k].0] == cur[k].1
                && 0 <= item_index_spec(cur[k].0) < n by {
                if k < prev.len() {
                    assert(cur[k] == prev[k]);
                }
            }
            assert forall|k: int, l: int| 0 <= k < l < cur.len() implies item_index_spec(#[trigger] cur[k].0) < item_index_spec(#[trigger] cur[l].0) by {
                assert(cur[k] == prev[k]);
                if l < prev.len() {
                    assert(cur[l] == prev[l]);
                }
            }
        } else {
            assert(cur == prev);
        }
    }
}

proof fn lemma_entries_upto_contains(m: Map<ItemType, usize>, n: int, t: ItemType)
    requires
        0 <= n <= NUM_ITEM_TYPES,
        m.contains_key(t),
        item_index_spec(t) < n,
    ensures
        exists|k: int| 0 <= k < entries_upto(m, n).len() && #[trigger] entries_upto(m, n)[k].0 == t,
    decreases n,
{
    lemma_item_index_bijective(t);
    if item_index_spec(t) == n - 1 {
        let k = entries_upto(m, n).len() - 1;
        assert(entries_upto(m, n)[k].0 == t);
    } else {
        lemma_entries_upto_contains(m, n - 1, t);
        let k = choose|k: int| 0 <= k < entries_upto(m, n - 1).len() && #[trigger] entries_upto(m, n - 1)[k].0 == t;
        assert(entries_upto(m, n)[k].0 == t);
    }
}

} // verus!
