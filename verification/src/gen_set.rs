//! A generational arena: a vector of slots whose freed slots are reused,
//! with a generation counter per slot so that handles to a removed value
//! never reach the value that later takes its place.
use core::marker::PhantomData;
use crate::power_network::{count_false, lemma_count_false_set};
use vstd::prelude::*;

verus! {

/// A handle to a value in a [`GenSet`]: the slot index and the generation
/// of the slot at the time the value was added.
#[derive(Debug)]
pub struct GenId<T> {
    pub id: u32,
    pub gen: u32,
    pub _ph: PhantomData<T>,
}

impl<T> Clone for GenId<T> {
    fn clone(&self) -> (ret: Self)
        ensures
            ret == *self,
    {
        GenId { id: self.id, gen: self.gen, _ph: PhantomData }
    }
}

impl<T> Copy for GenId<T> {

}

impl<T> PartialEq for GenId<T> {
    fn eq(&self, other: &Self) -> (ret: bool) {
        self.id == other.id && self.gen == other.gen
    }
}

impl<T> vstd::std_specs::cmp::PartialEqSpecImpl for GenId<T> {
    open spec fn obeys_eq_spec() -> bool {
        true
    }

    open spec fn eq_spec(&self, other: &Self) -> bool {
        self.id == other.id && self.gen == other.gen
    }
}

impl<T> Eq for GenId<T> {

}

impl<T> GenId<T> {
    pub fn new(id: u32, gen: u32) -> (ret: Self)
        ensures
            ret.id == id,
            ret.gen == gen,
    {
        GenId { id, gen, _ph: PhantomData }
    }

    /// Two handles are the same handle when slot and generation agree.
    pub proof fn lemma_same_handle(a: Self, b: Self)
        requires
            a.id == b.id,
            a.gen == b.gen,
        ensures
            a == b,
    {
        assert(a._ph == b._ph);
    }
}

/// The content of a slot: a value, or a link to the next free slot.
#[derive(Debug)]
pub enum GenPayload<T> {
    Occupied(T),
    Free(Option<usize>),
}

/// The value held by a payload, if any.
pub open spec fn payload_value<T>(p: GenPayload<T>) -> Option<T> {
    match p {
        GenPayload::Occupied(v) => Some(v),
        GenPayload::Free(_) => None,
    }
}

impl<T> GenPayload<T> {
    pub fn new(v: T) -> (ret: Self)
        ensures
            ret == GenPayload::Occupied(v),
    {
        GenPayload::Occupied(v)
    }

    pub fn is_free(&self) -> (ret: bool)
        ensures
            ret == (*self is Free),
    {
        match self {
            GenPayload::Free(_) => true,
            GenPayload::Occupied(_) => false,
        }
    }

    pub fn is_occupied(&self) -> (ret: bool)
        ensures
            ret == (*self is Occupied),
    {
        match self {
            GenPayload::Occupied(_) => true,
            GenPayload::Free(_) => false,
        }
    }

    pub fn as_ref(&self) -> (ret: Option<&T>)
        ensures
            match ret {
                Some(r) => payload_value(*self) == Some(*r),
                None => payload_value(*self) is None,
            },
    {
        match self {
            GenPayload::Occupied(v) => Some(v),
            GenPayload::Free(_) => None,
        }
    }

    pub fn as_mut(&mut self) -> (ret: Option<&mut T>)
        ensures
            match ret {
                Some(r) => {
                    &&& payload_value(*old(self)) == Some(*r)
                    &&& *final(self) == GenPayload::Occupied(*final(r))
                },
                None => {
                    &&& payload_value(*old(self)) is None
                    &&& *final(self) == *old(self)
                },
            },
    {
        match self {
            GenPayload::Occupied(v) => Some(v),
            GenPayload::Free(_) => None,
        }
    }

    /// Takes the value out, leaving a free payload with no link.
    pub fn take(&mut self) -> (ret: Option<T>)
        ensures
            ret == payload_value(*old(self)),
            *final(self) == GenPayload::<T>::Free(None),
    {
        let mut old_payload = GenPayload::Free(None);
        core::mem::swap(&mut old_payload, self);
        match old_payload {
            GenPayload::Occupied(v) => Some(v),
            GenPayload::Free(_) => None,
        }
    }
}

/// One slot of a [`GenSet`].
#[derive(Debug)]
pub struct GenEntry<T> {
    pub gen: u32,
    pub item: GenPayload<T>,
}

/// A set of values addressed by [`GenId`] handles.
pub struct GenSet<T> {
    v: Vec<GenEntry<T>>,
    free_head: Option<usize>,
    /// The free list, from its head, as a sequence of slot indices.
    free_chain: Ghost<Seq<usize>>,
}

/// The head of the free list `chain`: its first slot, if any.
pub open spec fn head_of(chain: Seq<usize>) -> Option<usize> {
    if chain.len() > 0 {
        Some(chain[0])
    } else {
        None
    }
}

/// Whether `chain` is a free list of `slots`: distinct slots, each free and
/// linking to the next one of the list (the last to none).
pub open spec fn free_list<T>(slots: Seq<GenEntry<T>>, chain: Seq<usize>) -> bool {
    &&& chain.no_duplicates()
    &&& forall|i: int|
        0 <= i < chain.len() ==> {
            &&& #[trigger] chain[i] < slots.len()
            &&& slots[chain[i] as int].item == GenPayload::<T>::Free(
                if i + 1 < chain.len() {
                    Some(chain[i + 1])
                } else {
                    None
                },
            )
        }
}

/// Whether slot `j` was emptied between `before` and `after`: it held a
/// value and is free.
pub open spec fn emptied<T>(before: Seq<GenEntry<T>>, after: Seq<GenEntry<T>>, j: int) -> bool {
    before[j].item is Occupied && after[j].item is Free
}

/// The free list `chain` with the slots below `k` emptied between `before`
/// and `after` put in front, each in front of those emptied before it.
pub open spec fn freed_chain<T>(before: Seq<GenEntry<T>>, after: Seq<GenEntry<T>>, k: int, chain: Seq<usize>) -> Seq<usize>
    decreases k,
{
    if k <= 0 {
        chain
    } else if emptied(before, after, k - 1) {
        seq![(k - 1) as usize] + freed_chain(before, after, k - 1, chain)
    } else {
        freed_chain(before, after, k - 1, chain)
    }
}

/// `freed_chain` reads the slots below `k` only.
proof fn lemma_freed_chain_frame<T>(
    before: Seq<GenEntry<T>>,
    a1: Seq<GenEntry<T>>,
    a2: Seq<GenEntry<T>>,
    k: int,
    chain: Seq<usize>,
)
    requires
        forall|j: int| 0 <= j < k ==> a1[j] == a2[j],
    ensures
        freed_chain(before, a1, k, chain) == freed_chain(before, a2, k, chain),
    decreases k,
{
    if k > 0 {
        lemma_freed_chain_frame(before, a1, a2, k - 1, chain);
    }
}

/// The slots and free list after adding `item`: the value takes the first
/// slot of the free list with its generation incremented, or a new slot of
/// generation 0 when the free list is empty.
pub open spec fn add_model<T>(slots: Seq<GenEntry<T>>, chain: Seq<usize>, item: T) -> (
    Seq<GenEntry<T>>,
    Seq<usize>,
) {
    if chain.len() > 0 {
        let i = chain[0] as int;
        (
            slots.update(i, GenEntry { gen: (slots[i].gen + 1) as u32, item: GenPayload::Occupied(item) }),
            chain.drop_first(),
        )
    } else {
        (slots.push(GenEntry { gen: 0, item: GenPayload::Occupied(item) }), chain)
    }
}

/// Whether `r` more values can be added: the freed slots that will be
/// refilled can take one more generation, and the new slots still get
/// `u32` indices.
#[verifier::opaque]
pub open spec fn room_for<T>(slots: Seq<GenEntry<T>>, chain: Seq<usize>, r: int) -> bool {
    &&& r <= chain.len() || slots.len() + (r - chain.len()) < u32::MAX
    &&& forall|k: int| 0 <= k < chain.len() && k < r ==> slots[#[trigger] chain[k] as int].gen < u32::MAX
}

/// Room for `r` more values leaves room for `r - 1` after one more value
/// is added, and allows that one.
pub proof fn lemma_add_keeps_room<T>(slots: Seq<GenEntry<T>>, chain: Seq<usize>, item: T, r: int)
    requires
        free_list(slots, chain),
        0 < r,
        room_for(slots, chain, r),
    ensures
        chain.len() > 0 ==> slots[chain[0] as int].gen < u32::MAX,
        chain.len() == 0 ==> slots.len() < u32::MAX,
        room_for(add_model(slots, chain, item).0, add_model(slots, chain, item).1, r - 1),
{
    reveal(room_for);
    let (s2, c2) = add_model(slots, chain, item);
    if chain.len() > 0 {
        assert(slots[chain[0] as int].gen < u32::MAX);
        assert forall|k: int| 0 <= k < c2.len() && k < r - 1 implies s2[#[trigger] c2[k] as int].gen < u32::MAX by {
            assert(c2[k] == chain[k + 1]);
            assert(chain[k + 1] != chain[0]);
            assert(slots[chain[k + 1] as int].gen < u32::MAX);
        }
    }
}

/// The slots and free list after adding each of `items` in turn.
pub open spec fn extend_model<T>(slots: Seq<GenEntry<T>>, chain: Seq<usize>, items: Seq<T>) -> (
    Seq<GenEntry<T>>,
    Seq<usize>,
)
    decreases items.len(),
{
    if items.len() == 0 {
        (slots, chain)
    } else {
        let (s2, c2) = add_model(slots, chain, items[0]);
        extend_model(s2, c2, items.drop_first())
    }
}

/// Adding a value to slots with the free list `chain` grows the slots by
/// one exactly when the free list is empty, and otherwise reuses a slot,
/// keeping their number.
pub proof fn lemma_add_len<T>(slots: Seq<GenEntry<T>>, chain: Seq<usize>, item: T)
    requires
        free_list(slots, chain),
    ensures
        add_model(slots, chain, item).0.len() == slots.len() + if chain.len() == 0 { 1int } else { 0int },
{
}

/// The value that `id` designates among `slots`: the value of its slot
/// when the slot exists, is occupied and has the handle's generation.
pub open spec fn lookup_in<T>(slots: Seq<GenEntry<T>>, id: GenId<T>) -> Option<T> {
    if (id.id as int) < slots.len() && slots[id.id as int].gen == id.gen {
        payload_value(slots[id.id as int].item)
    } else {
        None
    }
}

/// A handle is stale when its slot has moved on to a later generation.
pub open spec fn stale<T>(slots: Seq<GenEntry<T>>, id: GenId<T>) -> bool {
    (id.id as int) < slots.len() && id.gen < slots[id.id as int].gen
}

/// A stale handle designates nothing, and stays stale when a value is
/// added: adding only ever raises a slot's generation.
pub proof fn lemma_stale_stays_stale<T>(slots: Seq<GenEntry<T>>, chain: Seq<usize>, item: T, id: GenId<T>)
    requires
        stale(slots, id),
        forall|k: int| 0 <= k < chain.len() ==> (#[trigger] chain[k] as int) < slots.len() && slots[chain[k] as int].gen < u32::MAX,
    ensures
        lookup_in(slots, id) is None,
        stale(add_model(slots, chain, item).0, id),
        lookup_in(add_model(slots, chain, item).0, id) is None,
{
    if chain.len() > 0 {
        assert(chain[0] < slots.len());
    }
}

/// Once a value is removed, adding the next value reuses its slot at the
/// next generation, so the removed value's handle becomes stale and never
/// designates the new value.
pub proof fn lemma_removed_handle_goes_stale<T>(slots: Seq<GenEntry<T>>, id: GenId<T>, item: T)
    requires
        (id.id as int) < slots.len(),
        slots[id.id as int].gen == id.gen,
        id.gen < u32::MAX,
    ensures
        ({
            let removed = slots.update(id.id as int, GenEntry { gen: id.gen, item: GenPayload::Free(None) });
            let (added, _) = add_model(removed, seq![id.id as usize], item);
            &&& lookup_in(removed, id) is None
            &&& stale(added, id)
            &&& lookup_in(added, id) is None
            &&& lookup_in(added, handle::<T>(id.id as int, (id.gen + 1) as u32)) == Some(item)
        }),
{
}

/// The handle that adding a value hands out designates that value, and
/// every other handle keeps designating what it did: adding takes a free
/// slot (or a new one) and so takes nothing from anyone.
pub proof fn lemma_add_then_lookup<T>(slots: Seq<GenEntry<T>>, chain: Seq<usize>, item: T, h: GenId<T>)
    requires
        slots.len() < u32::MAX,
        forall|k: int| 0 <= k < chain.len() ==> (#[trigger] chain[k] as int) < slots.len() && slots[chain[k] as int].gen < u32::MAX
            && slots[chain[k] as int].item is Free,
    ensures
        ({
            let added = add_model(slots, chain, item).0;
            let new_handle = if chain.len() > 0 {
                handle::<T>(chain[0] as int, (slots[chain[0] as int].gen + 1) as u32)
            } else {
                handle::<T>(slots.len() as int, 0)
            };
            &&& lookup_in(added, new_handle) == Some(item)
            &&& !(h.id == new_handle.id && h.gen == new_handle.gen) ==> lookup_in(added, h) == lookup_in(slots, h)
        }),
{
    if chain.len() > 0 {
        assert(chain[0] < slots.len());
    }
}

/// Whether `c` is a free list of `v` starting at `head`: distinct free
/// slots, each linking to the next, the last to nothing.
pub open spec fn chain_ok<T>(v: Seq<GenEntry<T>>, head: Option<usize>, c: Seq<usize>) -> bool {
    &&& (c.len() == 0 <==> head is None)
    &&& (c.len() > 0 ==> head == Some(c[0]))
    &&& c.no_duplicates()
    &&& forall|i: int|
        0 <= i < c.len() ==> {
            &&& #[trigger] c[i] < v.len()
            &&& v[c[i] as int].item == GenPayload::<T>::Free(if i + 1 < c.len() { Some(c[i + 1]) } else { None })
        }
}

/// Whether slots `v` with free list head `head` make a set: the slot
/// indices fit in handles and the free list is sound.
pub open spec fn valid_parts<T>(v: Seq<GenEntry<T>>, head: Option<usize>) -> bool {
    v.len() <= u32::MAX && exists|c: Seq<usize>| chain_ok(v, head, c)
}

/// The handle of slot `id` at generation `gen`.
pub open spec fn handle<T>(id: int, gen: u32) -> GenId<T> {
    GenId { id: id as u32, gen, _ph: PhantomData }
}

/// The indices of the occupied slots among the first `n`, in order.
pub open spec fn occupied_upto<T>(slots: Seq<GenEntry<T>>, n: int) -> Seq<int>
    decreases n,
{
    if n <= 0 {
        Seq::empty()
    } else if slots[n - 1].item is Occupied {
        occupied_upto(slots, n - 1).push(n - 1)
    } else {
        occupied_upto(slots, n - 1)
    }
}

/// The indices of the occupied slots, in order.
pub open spec fn occupied<T>(slots: Seq<GenEntry<T>>) -> Seq<int> {
    occupied_upto(slots, slots.len() as int)
}

impl<T> GenSet<T> {
    /// The slots of the set, in index order.
    pub closed spec fn slots(&self) -> Seq<GenEntry<T>> {
        self.v@
    }

    /// The head of the free list.
    pub closed spec fn spec_free_head(&self) -> Option<usize> {
        self.free_head
    }

    /// The free list, from its head.
    pub closed spec fn chain(&self) -> Seq<usize> {
        self.free_chain@
    }

    /// The value that `id` designates: the value of its slot when the slot
    /// exists, is occupied and has the handle's generation.
    pub open spec fn lookup(&self, id: GenId<T>) -> Option<T> {
        lookup_in(self.slots(), id)
    }

    /// Whether `id` designates a value of the set.
    pub open spec fn live(&self, id: GenId<T>) -> bool {
        self.lookup(id) is Some
    }

    /// The free list is a sequence of free slots, each linking to the next,
    /// starting at the head; every slot index fits in a handle.
    pub closed spec fn wf(&self) -> bool {
        let c = self.free_chain@;
        let v = self.v@;
        &&& v.len() <= u32::MAX
        &&& (c.len() == 0 <==> self.free_head is None)
        &&& (c.len() > 0 ==> self.free_head == Some(c[0]))
        &&& c.no_duplicates()
        &&& forall|i: int|
            0 <= i < c.len() ==> {
                &&& #[trigger] c[i] < v.len()
                &&& v[c[i] as int].item == GenPayload::<T>::Free(
                    if i + 1 < c.len() {
                        Some(c[i + 1])
                    } else {
                        None
                    },
                )
            }
    }

    /// The slot that the next `add` will fill: the head of the free list,
    /// or a new slot at the end.
    pub open spec fn next_slot(&self) -> int {
        match self.spec_free_head() {
            Some(i) => i as int,
            None => self.slots().len() as int,
        }
    }

    /// Whether `add` can hand out a handle: a reused slot's generation can
    /// still be incremented, and a new slot's index fits in a handle.
    pub open spec fn can_add(&self) -> bool {
        match self.spec_free_head() {
            Some(i) => (i as int) < self.slots().len() && self.slots()[i as int].gen < u32::MAX,
            None => self.slots().len() < u32::MAX,
        }
    }

    pub fn new() -> (ret: Self)
        ensures
            ret.wf(),
            ret.slots() == Seq::<GenEntry<T>>::empty(),
            ret.chain() == Seq::<usize>::empty(),
            ret.spec_free_head() is None,
    {
        GenSet { v: Vec::new(), free_head: None, free_chain: Ghost(Seq::empty()) }
    }

    /// Adds a value, reusing the most recently freed slot when there is
    /// one (with its generation incremented), and returns its handle.
    pub fn add(&mut self, item: T) -> (ret: GenId<T>)
        requires
            old(self).wf(),
            old(self).can_add(),
        ensures
            final(self).wf(),
            ret.id == old(self).next_slot(),
            match old(self).spec_free_head() {
                Some(i) => {
                    &&& ret.gen == old(self).slots()[i as int].gen + 1
                    &&& final(self).slots() == old(self).slots().update(
                        i as int,
                        GenEntry { gen: ret.gen, item: GenPayload::Occupied(item) },
                    )
                },
                None => {
                    &&& ret.gen == 0
                    &&& final(self).slots() == old(self).slots().push(
                        GenEntry { gen: 0, item: GenPayload::Occupied(item) },
                    )
                },
            },
            (final(self).slots(), final(self).chain()) == add_model(
                old(self).slots(),
                old(self).chain(),
                item,
            ),
            final(self).lookup(ret) == Some(item),
            forall|h: GenId<T>|
                !(h.id == ret.id && h.gen == ret.gen) ==> final(self).lookup(h) == old(self).lookup(
                    h,
                ),
            final(self).spec_free_head() == head_of(final(self).chain()),
            match old(self).spec_free_head() {
                Some(i) => old(self).slots()[i as int].item == GenPayload::<T>::Free(final(self).spec_free_head()),
                None => final(self).spec_free_head() is None,
            },
    {
        match self.free_head {
            Some(i) => {
                let ghost c = self.free_chain@;
                assert(c[0] == i);
                let prev_i = match self.v[i].item {
                    GenPayload::Free(p) => p,
                    GenPayload::Occupied(_) => None,
                };
                let gen = self.v[i].gen + 1;
                self.free_head = prev_i;
                self.v.set(i, GenEntry { gen, item: GenPayload::new(item) });
                self.free_chain = Ghost(c.drop_first());
                proof {
                    let nc = c.drop_first();
                    assert forall|k: int| 0 <= k < nc.len() implies nc[k] != i by {
                        assert(c[k + 1] != c[0]);
                    }
                }
                GenId::new(i as u32, gen)
            },
            None => {
                let ret = self.v.len();
                self.v.push(GenEntry { gen: 0, item: GenPayload::new(item) });
                GenId::new(ret as u32, 0)
            },
        }
    }


    /// Removes the value that `id` designates. When the handle's slot
    /// exists with the handle's generation, the slot is freed (whatever it
    /// held) and becomes the head of the free list.
    pub fn remove(&mut self, id: GenId<T>) -> (ret: Option<T>)
        requires
            old(self).wf(),
        ensures
            final(self).wf(),
            ret == old(self).lookup(id),
            !final(self).live(id),
            if (id.id as int) < old(self).slots().len() && old(self).slots()[id.id as int].gen
                == id.gen {
                &&& final(self).slots() == old(self).slots().update(
                    id.id as int,
                    GenEntry { gen: id.gen, item: GenPayload::Free(None) },
                )
                &&& final(self).chain() == seq![id.id as usize]
                &&& final(self).spec_free_head() == Some(id.id as usize)
            } else {
                &&& final(self).slots() == old(self).slots()
                &&& final(self).chain() == old(self).chain()
                &&& final(self).spec_free_head() == old(self).spec_free_head()
            },
            forall|h: GenId<T>| h.id != id.id ==> final(self).lookup(h) == old(self).lookup(h),
    {
        let i = id.id as usize;
        if i < self.v.len() {
            if self.v[i].gen == id.gen {
                let gen = self.v[i].gen;
                let mut entry = GenEntry { gen, item: GenPayload::Free(None) };
                core::mem::swap(&mut entry, &mut self.v[i]);
                let ret = match entry.item {
                    GenPayload::Occupied(v) => Some(v),
                    GenPayload::Free(_) => None,
                };
                self.free_head = Some(i);
                self.free_chain = Ghost(Seq::empty().push(i));
                return ret;
            }
        }
        None
    }

    /// The number of slots, free ones included.
    pub fn len(&self) -> (ret: usize)
        ensures
            ret == self.slots().len(),
    {
        self.v.len()
    }

    /// Removes every slot.
    pub fn clear(&mut self)
        ensures
            final(self).wf(),
            final(self).slots() == Seq::<GenEntry<T>>::empty(),
            final(self).chain() == Seq::<usize>::empty(),
            final(self).spec_free_head() is None,
    {
        self.v.clear();
        self.free_head = None;
        self.free_chain = Ghost(Seq::empty());
    }

    /// The value that `id` designates.
    pub fn get(&self, id: GenId<T>) -> (ret: Option<&T>)
        ensures
            match ret {
                Some(r) => self.lookup(id) == Some(*r),
                None => self.lookup(id) is None,
            },
    {
        let i = id.id as usize;
        if i < self.v.len() {
            let entry = &self.v[i];
            if entry.gen == id.gen {
                return entry.item.as_ref();
            }
        }
        None
    }

    /// Mutable access to the value that `id` designates.
    pub fn get_mut(&mut self, id: GenId<T>) -> (ret: Option<&mut T>)
        requires
            old(self).wf(),
        ensures
            match ret {
                Some(r) => {
                    &&& old(self).lookup(id) == Some(*r)
                    &&& final(self).slots() == old(self).slots().update(
                        id.id as int,
                        GenEntry { gen: id.gen, item: GenPayload::Occupied(*final(r)) },
                    )
                },
                None => {
                    &&& old(self).lookup(id) is None
                    &&& final(self).slots() == old(self).slots()
                },
            },
            final(self).chain() == old(self).chain(),
            final(self).spec_free_head() == old(self).spec_free_head(),
            final(self).wf(),
    {
        let i = id.id as usize;
        if i < self.v.len() && self.v[i].gen == id.gen {
            let entry = &mut self.v[i];
            entry.item.as_mut()
        } else {
            None
        }
    }

    /// Mutable access to the slot at `index`, if there is one. The caller
    /// may change the slot's generation and content; the set is
    /// well-formed afterwards only if the caller keeps the free list intact.
    pub fn get_by_index_mut(&mut self, index: usize) -> (ret: Option<&mut GenEntry<T>>)
        ensures
            match ret {
                Some(r) => {
                    &&& index < old(self).slots().len()
                    &&& *r == old(self).slots()[index as int]
                    &&& final(self).slots() == old(self).slots().update(index as int, *final(r))
                },
                None => {
                    &&& index >= old(self).slots().len()
                    &&& final(self).slots() == old(self).slots()
                },
            },
            final(self).chain() == old(self).chain(),
            final(self).spec_free_head() == old(self).spec_free_head(),
    {
        if index < self.v.len() {
            Some(&mut self.v[index])
        } else {
            None
        }
    }

    /// The values of the set, in slot order.
    pub fn iter(&self) -> (ret: Vec<&T>)
        ensures
            ret@.len() == occupied(self.slots()).len(),
            forall|k: int|
                0 <= k < ret@.len() ==> Some(*#[trigger] ret@[k]) == payload_value(
                    self.slots()[occupied(self.slots())[k]].item,
                ),
    {
        let mut ret: Vec<&T> = Vec::new();
        let n = self.v.len();
        let mut i: usize = 0;
        while i < n
            invariant
                n == self.slots().len(),
                i <= n,
                ret@.len() == occupied_upto(self.slots(), i as int).len(),
                forall|j: int| 0 <= j < occupied_upto(self.slots(), i as int).len() ==> 0 <= #[trigger] occupied_upto(self.slots(), i as int)[j] < i,
                forall|k: int|
                    0 <= k < ret@.len() ==> Some(*#[trigger] ret@[k]) == payload_value(
                        self.slots()[occupied_upto(self.slots(), i as int)[k]].item,
                    ),
            decreases n - i,
        {
            match &self.v[i].item {
                GenPayload::Occupied(x) => {
                    ret.push(x);
                },
                GenPayload::Free(_) => {},
            }
            i = i + 1;
        }
        ret
    }

    /// The handles and values of the set, in slot order.
    pub fn items(&self) -> (ret: Vec<(GenId<T>, &T)>)
        requires
            self.wf(),
        ensures
            ret@.len() == occupied(self.slots()).len(),
            forall|k: int|
                0 <= k < ret@.len() ==> {
                    let idx = occupied(self.slots())[k];
                    &&& (#[trigger] ret@[k]).0.id == idx
                    &&& ret@[k].0.gen == self.slots()[idx].gen
                    &&& Some(*ret@[k].1) == payload_value(self.slots()[idx].item)
                    &&& self.lookup(ret@[k].0) == Some(*ret@[k].1)
                },
    {
        let mut ret: Vec<(GenId<T>, &T)> = Vec::new();
        let n = self.v.len();
        let mut i: usize = 0;
        while i < n
            invariant
                self.wf(),
                n == self.slots().len(),
                i <= n,
                ret@.len() == occupied_upto(self.slots(), i as int).len(),
                forall|j: int| 0 <= j < occupied_upto(self.slots(), i as int).len() ==> 0 <= #[trigger] occupied_upto(self.slots(), i as int)[j] < i,
                forall|k: int|
                    0 <= k < ret@.len() ==> {
                        let idx = occupied_upto(self.slots(), i as int)[k];
                        &&& (#[trigger] ret@[k]).0.id == idx
                        &&& ret@[k].0.gen == self.slots()[idx].gen
                        &&& Some(*ret@[k].1) == payload_value(self.slots()[idx].item)
                    },
            decreases n - i,
        {
            let gen = self.v[i].gen;
            match &self.v[i].item {
                GenPayload::Occupied(x) => {
                    ret.push((GenId::new(i as u32, gen), x));
                },
                GenPayload::Free(_) => {},
            }
            i = i + 1;
        }
        ret
    }

    /// Frees every slot whose value `f` rejects; each freed slot becomes
    /// the head of the free list, in slot order.
    pub fn retain(&mut self, f: impl Fn(&T) -> bool)
        requires
            old(self).wf(),
            forall|x: &T| #[trigger] f.requires((x,)),
        ensures
            final(self).wf(),
            final(self).slots().len() == old(self).slots().len(),
            forall|i: int|
                0 <= i < old(self).slots().len() ==> {
                    let o = old(self).slots()[i];
                    let n = #[trigger] final(self).slots()[i];
                    &&& n.gen == o.gen
                    &&& match o.item {
                        GenPayload::Occupied(x) => (n.item == o.item && f.ensures((&x,), true)) || (
                        n.item is Free && f.ensures((&x,), false)),
                        GenPayload::Free(_) => n.item == o.item,
                    }
                },
            final(self).chain() == freed_chain(old(self).slots(), final(self).slots(), old(self).slots().len() as int, old(self).chain()),
            final(self).spec_free_head() == head_of(final(self).chain()),
    {
        let n = self.v.len();
        let mut i: usize = 0;
        while i < n
            invariant
                self.wf(),
                n == self.slots().len(),
                n == old(self).slots().len(),
                i <= n,
                forall|x: &T| #[trigger] f.requires((x,)),
                forall|j: int|
                    i <= j < n ==> #[trigger] self.slots()[j] == old(self).slots()[j],
                forall|j: int|
                    0 <= j < i ==> {
                        let o = old(self).slots()[j];
                        let m = #[trigger] self.slots()[j];
                        &&& m.gen == o.gen
                        &&& match o.item {
                            GenPayload::Occupied(x) => (m.item == o.item && f.ensures((&x,), true))
                                || (m.item is Free && f.ensures((&x,), false)),
                            GenPayload::Free(_) => m.item == o.item,
                        }
                    },
                self.chain() == freed_chain(old(self).slots(), self.slots(), i as int, old(self).chain()),
            decreases n - i,
        {
            let ghost s0 = self.slots();
            let reject = match &self.v[i].item {
                GenPayload::Occupied(x) => !f(x),
                GenPayload::Free(_) => false,
            };
            if reject {
                let gen = self.v[i].gen;
                let ghost c = self.free_chain@;
                assert(!c.contains(i)) by {
                    if c.contains(i) {
                        let k = choose|k: int| 0 <= k < c.len() && c[k] == i;
                        assert(self.slots()[c[k] as int].item is Free);
                    }
                }
                self.v.set(i, GenEntry { gen, item: GenPayload::Free(self.free_head) });
                self.free_head = Some(i);
                self.free_chain = Ghost(Seq::empty().push(i) + c);
                proof {
                    let nc = Seq::empty().push(i) + c;
                    assert(nc.no_duplicates()) by {
                        assert forall|a: int, b: int|
                            0 <= a < nc.len() && 0 <= b < nc.len() && a != b implies nc[a]
                            != nc[b] by {
                            if a > 0 && b > 0 {
                                assert(nc[a] == c[a - 1]);
                                assert(nc[b] == c[b - 1]);
                            } else if a == 0 {
                                assert(nc[b] == c[b - 1]);
                                assert(c.contains(c[b - 1]));
                            } else {
                                assert(nc[a] == c[a - 1]);
                                assert(c.contains(c[a - 1]));
                            }
                        }
                    }
                    assert forall|k: int| 0 <= k < nc.len() implies #[trigger] nc[k] < self.slots().len() && self.slots()[nc[k] as int].item == GenPayload::<T>::Free(
                        if k + 1 < nc.len() { Some(nc[k + 1]) } else { None },
                    ) by {
                        if k > 0 {
                            assert(nc[k] == c[k - 1]);
                            assert(c[k - 1] != i) by {
                                assert(c.contains(c[k - 1]));
                            }
                        }
                    }
                }
            }
            proof {
                lemma_freed_chain_frame(old(self).slots(), s0, self.slots(), i as int, old(self).chain());
                if emptied(old(self).slots(), self.slots(), i as int) {
                    assert(self.chain() =~= seq![i] + freed_chain(old(self).slots(), s0, i as int, old(self).chain()));
                }
            }
            i = i + 1;
        }
    }

    /// Like [`GenSet::retain`], with the handle of each value given to `f`.
    pub fn retain_with_id(&mut self, f: impl Fn(GenId<T>, &T) -> bool)
        requires
            old(self).wf(),
            forall|h: GenId<T>, x: &T| #[trigger] f.requires((h, x)),
        ensures
            final(self).wf(),
            final(self).slots().len() == old(self).slots().len(),
            forall|i: int|
                0 <= i < old(self).slots().len() ==> {
                    let o = old(self).slots()[i];
                    let n = #[trigger] final(self).slots()[i];
                    &&& n.gen == o.gen
                    &&& match o.item {
                        GenPayload::Occupied(x) => (n.item == o.item && f.ensures((handle::<T>(i, o.gen), &x), true)) || (
                        n.item is Free && f.ensures((handle::<T>(i, o.gen), &x), false)),
                        GenPayload::Free(_) => n.item == o.item,
                    }
                },
            final(self).chain() == freed_chain(old(self).slots(), final(self).slots(), old(self).slots().len() as int, old(self).chain()),
            final(self).spec_free_head() == head_of(final(self).chain()),
    {
        let n = self.v.len();
        let mut i: usize = 0;
        while i < n
            invariant
                self.wf(),
                n == self.slots().len(),
                n == old(self).slots().len(),
                i <= n,
                forall|h: GenId<T>, x: &T| #[trigger] f.requires((h, x)),
                forall|j: int|
                    i <= j < n ==> #[trigger] self.slots()[j] == old(self).slots()[j],
                forall|j: int|
                    0 <= j < i ==> {
                        let o = old(self).slots()[j];
                        let m = #[trigger] self.slots()[j];
                        &&& m.gen == o.gen
                        &&& match o.item {
                            GenPayload::Occupied(x) => (m.item == o.item && f.ensures((handle::<T>(j, o.gen), &x), true))
                                || (m.item is Free && f.ensures((handle::<T>(j, o.gen), &x), false)),
                            GenPayload::Free(_) => m.item == o.item,
                        }
                    },
                self.chain() == freed_chain(old(self).slots(), self.slots(), i as int, old(self).chain()),
            decreases n - i,
        {
            let ghost s0 = self.slots();
            let gen = self.v[i].gen;
            let reject = match &self.v[i].item {
                GenPayload::Occupied(x) => !f(GenId::new(i as u32, gen), x),
                GenPayload::Free(_) => false,
            };
            if reject {
                let gen = self.v[i].gen;
                let ghost c = self.free_chain@;
                assert(!c.contains(i)) by {
                    if c.contains(i) {
                        let k = choose|k: int| 0 <= k < c.len() && c[k] == i;
                        assert(self.slots()[c[k] as int].item is Free);
                    }
                }
                self.v.set(i, GenEntry { gen, item: GenPayload::Free(self.free_head) });
                self.free_head = Some(i);
                self.free_chain = Ghost(Seq::empty().push(i) + c);
                proof {
                    let nc = Seq::empty().push(i) + c;
                    assert(nc.no_duplicates()) by {
                        assert forall|a: int, b: int|
                            0 <= a < nc.len() && 0 <= b < nc.len() && a != b implies nc[a]
                            != nc[b] by {
                            if a > 0 && b > 0 {
                                assert(nc[a] == c[a - 1]);
                                assert(nc[b] == c[b - 1]);
                            } else if a == 0 {
                                assert(nc[b] == c[b - 1]);
                                assert(c.contains(c[b - 1]));
                            } else {
                                assert(nc[a] == c[a - 1]);
                                assert(c.contains(c[a - 1]));
                            }
                        }
                    }
                    assert forall|k: int| 0 <= k < nc.len() implies #[trigger] nc[k] < self.slots().len() && self.slots()[nc[k] as int].item == GenPayload::<T>::Free(
                        if k + 1 < nc.len() { Some(nc[k + 1]) } else { None },
                    ) by {
                        if k > 0 {
                            assert(nc[k] == c[k - 1]);
                            assert(c[k - 1] != i) by {
                                assert(c.contains(c[k - 1]));
                            }
                        }
                    }
                }
            }
            proof {
                lemma_freed_chain_frame(old(self).slots(), s0, self.slots(), i as int, old(self).chain());
                if emptied(old(self).slots(), self.slots(), i as int) {
                    assert(self.chain() =~= seq![i] + freed_chain(old(self).slots(), s0, i as int, old(self).chain()));
                }
            }
            i = i + 1;
        }
    }

    /// Adds each of `items` in turn: the first ones refill the freed slots,
    /// most recently freed first, and the rest go into new slots.
    pub fn extend(&mut self, items: Vec<T>)
        requires
            old(self).wf(),
            room_for(old(self).slots(), old(self).chain(), items@.len() as int),
        ensures
            final(self).wf(),
            (final(self).slots(), final(self).chain()) == extend_model(
                old(self).slots(),
                old(self).chain(),
                items@,
            ),
            final(self).spec_free_head() == head_of(final(self).chain()),
    {
        let ghost all = items@;
        assert(all.skip(0) =~= all);
        for item in it: items.into_iter()
            invariant
                self.wf(),
                it.seq() == all,
                room_for(self.slots(), self.chain(), all.len() - it.index()),
                extend_model(self.slots(), self.chain(), all.skip(it.index() as int))
                    == extend_model(old(self).slots(), old(self).chain(), all),
        {
            proof {
                let rest = all.skip(it.index() as int);
                assert(rest[0] == item);
                assert(rest.drop_first() =~= all.skip(it.index() + 1));
            }
            let ghost r = all.len() - it.index();
            let ghost (s0, c0) = (self.slots(), self.chain());
            proof {
                self.lemma_free_list();
                lemma_add_keeps_room(s0, c0, item, r);
            }
            self.add(item);
            proof {
                assert((self.slots(), self.chain()) == add_model(s0, c0, item));
            }
        }
        proof {
            assert(all.skip(all.len() as int) =~= Seq::<T>::empty());
        }
    }

    /// A set holding `items`, in slots `0..items.len()`.
    pub fn from_iter(items: Vec<T>) -> (ret: Self)
        requires
            items@.len() < u32::MAX,
        ensures
            ret.wf(),
            (ret.slots(), ret.chain()) == extend_model(Seq::empty(), Seq::empty(), items@),
    {
        let mut set = GenSet::new();
        proof {
            reveal(room_for);
        }
        set.extend(items);
        set
    }

    /// The slot at `index`, if there is one.
    pub fn get_by_index(&self, index: usize) -> (ret: Option<&GenEntry<T>>)
        ensures
            match ret {
                Some(r) => index < self.slots().len() && *r == self.slots()[index as int],
                None => index >= self.slots().len(),
            },
    {
        if index < self.v.len() {
            Some(&self.v[index])
        } else {
            None
        }
    }
}

impl<T> GenSet<T> {
    /// The slots of the set, in index order (what a save file stores).
    pub fn entries(&self) -> (ret: &Vec<GenEntry<T>>)
        ensures
            ret@ == self.slots(),
    {
        &self.v
    }

    /// The head of the free list (what a save file stores beside the
    /// slots).
    pub fn free_head(&self) -> (ret: Option<usize>)
        ensures
            ret == self.spec_free_head(),
    {
        self.free_head
    }

    /// Every slot index of a set fits in a handle.
    pub proof fn lemma_wf_len(&self)
        requires
            self.wf(),
        ensures
            self.slots().len() <= u32::MAX,
    {
    }

    /// The slots and free list head of a set make a set again.
    /// The head of a set's free list is the first slot of its chain, and
    /// the chain is a free list of its slots.
    pub proof fn lemma_free_list(&self)
        requires
            self.wf(),
        ensures
            self.spec_free_head() == head_of(self.chain()),
            free_list(self.slots(), self.chain()),
    {
    }

    pub proof fn lemma_parts_round_trip(&self)
        requires
            self.wf(),
        ensures
            valid_parts(self.slots(), self.spec_free_head()),
    {
        assert(chain_ok(self.slots(), self.spec_free_head(), self.chain()));
    }

    /// Rebuilds a set from its slots and the head of its free list, as a
    /// save file stores them. Fails when the slot indices do not fit in
    /// handles or the free list is not a chain of distinct free slots ending
    /// in nothing.
    pub fn from_parts(v: Vec<GenEntry<T>>, free_head: Option<usize>) -> (ret: Option<GenSet<T>>)
        ensures
            ret is Some <==> valid_parts(v@, free_head),
            ret matches Some(s) ==> s.wf() && s.slots() == v@ && s.spec_free_head() == free_head,
    {
        if v.len() > 0xffff_ffff {
            return None;
        }
        let mut seen: Vec<bool> = Vec::new();
        let mut k: usize = 0;
        while k < v.len()
            invariant
                k <= v.len(),
                seen.len() == k,
                forall|j: int| 0 <= j < k ==> !seen@[j],
            decreases v.len() - k,
        {
            seen.push(false);
            k += 1;
        }
        let ghost mut c: Seq<usize> = Seq::empty();
        let mut cur = free_head;
        while cur.is_some()
            invariant
                v.len() <= u32::MAX,
                seen.len() == v.len(),
                c.no_duplicates(),
                forall|j: int| 0 <= j < c.len() ==> (#[trigger] c[j]) < v.len(),
                forall|i: int| 0 <= i < v.len() ==> (seen@[i] <==> c.contains(i as usize)),
                forall|j: int| 0 <= j < c.len() - 1 ==> v@[#[trigger] c[j] as int].item == GenPayload::<T>::Free(Some(c[j + 1])),
                c.len() > 0 ==> v@[c.last() as int].item == GenPayload::<T>::Free(cur),
                c.len() == 0 ==> cur == free_head,
                c.len() > 0 ==> free_head == Some(c[0]),
                forall|c2: Seq<usize>| #[trigger] chain_ok(v@, free_head, c2) ==> {
                    &&& c2.len() >= c.len()
                    &&& forall|j: int| 0 <= j < c.len() ==> c2[j] == c[j]
                    &&& (cur matches Some(h) ==> c2.len() > c.len() && c2[c.len() as int] == h)
                    &&& (cur is None ==> c2.len() == c.len())
                },
            decreases count_false(seen@),
        {
            let i = cur.unwrap();
            if i >= v.len() {
                proof {
                    assert forall|c2: Seq<usize>| !chain_ok(v@, free_head, c2) by {
                        if chain_ok(v@, free_head, c2) {
                            assert(c2[c.len() as int] < v.len());
                        }
                    }
                }
                return None;
            }
            if seen[i] {
                proof {
                    assert(c.contains(i));
                    let m = choose|m: int| 0 <= m < c.len() && c[m] == i;
                    assert forall|c2: Seq<usize>| !chain_ok(v@, free_head, c2) by {
                        if chain_ok(v@, free_head, c2) {
                            assert(c2[m] == i && c2[c.len() as int] == i);
                        }
                    }
                }
                return None;
            }
            match &v[i].item {
                GenPayload::Free(p) => {
                    let next = *p;
                    proof {
                        lemma_count_false_set(seen@, i as int);
                        let c_old = c;
                        c = c.push(i);
                        assert forall|a: int, b: int| 0 <= a < c.len() && 0 <= b < c.len() && a != b implies c[a] != c[b] by {
                            if a < c_old.len() && b < c_old.len() {
                                assert(c[a] == c_old[a] && c[b] == c_old[b]);
                            } else if a == c_old.len() {
                                assert(c[b] == c_old[b]);
                                assert(!c_old.contains(i));
                            } else {
                                assert(c[a] == c_old[a]);
                                assert(!c_old.contains(i));
                            }
                        }
                        assert forall|c2: Seq<usize>| #[trigger] chain_ok(v@, free_head, c2) implies {
                            &&& c2.len() >= c.len()
                            &&& forall|j: int| 0 <= j < c.len() ==> c2[j] == c[j]
                            &&& (next matches Some(h) ==> c2.len() > c.len() && c2[c.len() as int] == h)
                            &&& (next is None ==> c2.len() == c.len())
                        } by {
                            let n = c_old.len() as int;
                            assert(c2[n] == i);
                            assert(v@[c2[n] as int].item == GenPayload::<T>::Free(if n + 1 < c2.len() { Some(c2[n + 1]) } else { None }));
                        }
                        assert forall|ii: int| 0 <= ii < v.len() implies (seen@.update(i as int, true)[ii] <==> c.contains(ii as usize)) by {
                            if ii == i {
                                assert(c[c_old.len() as int] == i);
                            } else {
                                if c.contains(ii as usize) {
                                    let m = choose|m: int| 0 <= m < c.len() && c[m] == ii as usize;
                                    assert(m < c_old.len());
                                    assert(c_old[m] == ii as usize);
                                }
                                if c_old.contains(ii as usize) {
                                    let m = choose|m: int| 0 <= m < c_old.len() && c_old[m] == ii as usize;
                                    assert(c[m] == ii as usize);
                                }
                            }
                        }
                        assert forall|j: int| 0 <= j < c.len() - 1 implies v@[#[trigger] c[j] as int].item == GenPayload::<T>::Free(Some(c[j + 1])) by {
                            if j < c_old.len() - 1 {
                                assert(c[j] == c_old[j] && c[j + 1] == c_old[j + 1]);
                            } else {
                                assert(c[j] == c_old.last());
                            }
                        }
                    }
                    seen.set(i, true);
                    cur = next;
                },
                GenPayload::Occupied(_) => {
                    proof {
                        assert forall|c2: Seq<usize>| !chain_ok(v@, free_head, c2) by {
                            if chain_ok(v@, free_head, c2) {
                                let n = c.len() as int;
                                assert(c2[n] == i);
                                assert(v@[c2[n] as int].item is Free);
                            }
                        }
                    }
                    return None;
                },
            }
        }
        proof {
            assert(chain_ok(v@, free_head, c)) by {
                assert forall|j: int| 0 <= j < c.len() implies {
                    &&& #[trigger] c[j] < v.len()
                    &&& v@[c[j] as int].item == GenPayload::<T>::Free(if j + 1 < c.len() { Some(c[j + 1]) } else { None })
                } by {
                    if j < c.len() - 1 {
                    } else {
                        assert(c[j] == c.last());
                    }
                }
            }
        }
        let ret = GenSet { v, free_head, free_chain: Ghost(c) };
        Some(ret)
    }
}

} // verus!
