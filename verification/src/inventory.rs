//! Inventories: how many of each item a tile or the player holds.

use crate::interner::Interned;
use crate::ordered_map::{ascending, entries_map, lemma_entry_in_map, OrderedMap};
use vstd::prelude::*;

verus! {

/// A number of items of one kind.
pub type ItemAmount = u32;

/// The most items of one kind that an inventory holds.
pub const AMOUNT_CAP: ItemAmount = 0xFFFF_FFFF;

/// An item, named by the handle of its identifier.
#[derive(Clone, Copy, Debug, PartialEq, Eq, Structural)]
pub struct Item {
    pub id: Interned,
}

/// An item as configuration names it, by the written form of its identifier.
#[derive(Debug)]
pub struct ItemRaw {
    pub id: String,
}

/// A number of items of one kind.
#[derive(Clone, Copy, Debug, PartialEq, Eq, Structural)]
pub struct ItemStack {
    pub item: Item,
    pub amount: ItemAmount,
}

/// The number under `item` in `counts`: nothing held counts as zero.
pub open spec fn count_in(counts: Map<Interned, ItemAmount>, item: Interned) -> ItemAmount {
    if counts.contains_key(item) {
        counts[item]
    } else {
        0
    }
}

/// `counts` with `amount` under `item`: a count of zero is not written down.
pub open spec fn with_count(
    counts: Map<Interned, ItemAmount>,
    item: Interned,
    amount: ItemAmount,
) -> Map<Interned, ItemAmount> {
    if amount == 0 {
        counts.remove(item)
    } else {
        counts.insert(item, amount)
    }
}

/// Whether no count of zero is written down in `counts`.
pub open spec fn positive(counts: Map<Interned, ItemAmount>) -> bool {
    forall|item: Interned| counts.contains_key(item) ==> #[trigger] counts[item] > 0
}

/// The sum of two amounts, held at the cap.
pub open spec fn capped_sum(a: ItemAmount, b: ItemAmount) -> ItemAmount {
    if a + b > AMOUNT_CAP {
        AMOUNT_CAP
    } else {
        (a + b) as ItemAmount
    }
}

/// The smaller of two amounts.
pub open spec fn lesser(a: ItemAmount, b: ItemAmount) -> ItemAmount {
    if a <= b {
        a
    } else {
        b
    }
}

/// `counts` after `amount` of `item` was added.
pub open spec fn added(
    counts: Map<Interned, ItemAmount>,
    item: Interned,
    amount: ItemAmount,
) -> Map<Interned, ItemAmount> {
    with_count(counts, item, capped_sum(count_in(counts, item), amount))
}

/// What taking `amount` of `item` out of `counts` hands out: as much as is
/// there, up to `amount`; nothing where nothing is held.
pub open spec fn taken_amount(
    counts: Map<Interned, ItemAmount>,
    item: Interned,
    amount: ItemAmount,
) -> Option<ItemAmount> {
    if count_in(counts, item) == 0 {
        None
    } else {
        Some(lesser(count_in(counts, item), amount))
    }
}

/// `counts` after `amount` of `item` was taken out.
pub open spec fn taken(
    counts: Map<Interned, ItemAmount>,
    item: Interned,
    amount: ItemAmount,
) -> Map<Interned, ItemAmount> {
    match taken_amount(counts, item, amount) {
        None => counts,
        Some(n) => with_count(counts, item, (count_in(counts, item) - n) as ItemAmount),
    }
}

/// Adding an amount and taking it out again leaves the counts as they were,
/// as long as the sum stays within the cap.
pub proof fn law_add_then_take(
    counts: Map<Interned, ItemAmount>,
    item: Interned,
    amount: ItemAmount,
)
    requires
        positive(counts),
        count_in(counts, item) + amount <= AMOUNT_CAP,
    ensures
        taken(added(counts, item, amount), item, amount) == counts,
        amount > 0 ==> taken_amount(added(counts, item, amount), item, amount) == Some(amount),
{
    let mid = added(counts, item, amount);
    assert(taken(mid, item, amount) =~= counts);
}

/// Taking more than is held hands out what is held and leaves nothing.
pub proof fn law_take_more_than_held(counts: Map<Interned, ItemAmount>, item: Interned, amount: ItemAmount)
    requires
        amount > count_in(counts, item),
    ensures
        count_in(counts, item) > 0 ==> taken_amount(counts, item, amount) == Some(
            count_in(counts, item),
        ),
        count_in(counts, item) == 0 ==> taken_amount(counts, item, amount) is None,
        count_in(taken(counts, item, amount), item) == 0,
        forall|other: Interned|
            other != item ==> count_in(taken(counts, item, amount), other) == count_in(counts, other),
{
}

/// `counts` after each stack of `stacks` was taken out in turn, every one in
/// full.
pub open spec fn take_all(counts: Map<Interned, ItemAmount>, stacks: Seq<ItemStack>) -> Map<
    Interned,
    ItemAmount,
>
    decreases stacks.len(),
{
    if stacks.len() == 0 {
        counts
    } else {
        let before = take_all(counts, stacks.drop_last());
        let stack = stacks.last();
        with_count(
            before,
            stack.item.id,
            (count_in(before, stack.item.id) - stack.amount) as ItemAmount,
        )
    }
}

/// Whether each stack of `stacks` can be taken out of `counts` in turn, every
/// one in full.
pub open spec fn can_take_all(counts: Map<Interned, ItemAmount>, stacks: Seq<ItemStack>) -> bool
    decreases stacks.len(),
{
    if stacks.len() == 0 {
        true
    } else {
        &&& can_take_all(counts, stacks.drop_last())
        &&& count_in(take_all(counts, stacks.drop_last()), stacks.last().item.id)
            >= stacks.last().amount
    }
}

/// `counts` after each stack of `stacks` was added in turn.
pub open spec fn add_all(counts: Map<Interned, ItemAmount>, stacks: Seq<ItemStack>) -> Map<
    Interned,
    ItemAmount,
>
    decreases stacks.len(),
{
    if stacks.len() == 0 {
        counts
    } else {
        added(add_all(counts, stacks.drop_last()), stacks.last().item.id, stacks.last().amount)
    }
}

/// Stacks of which the first `n` cannot all be taken cannot all be taken.
pub proof fn lemma_cannot_take_from(
    counts: Map<Interned, ItemAmount>,
    stacks: Seq<ItemStack>,
    n: int,
)
    requires
        0 <= n <= stacks.len(),
        !can_take_all(counts, stacks.take(n)),
    ensures
        !can_take_all(counts, stacks),
    decreases stacks.len() - n,
{
    if n < stacks.len() {
        assert(stacks.take(n + 1).drop_last() =~= stacks.take(n));
        lemma_cannot_take_from(counts, stacks, n + 1);
    } else {
        assert(stacks.take(n) =~= stacks);
    }
}

/// What an inventory holds of each item.
pub struct Inventory {
    items: OrderedMap<Interned, ItemAmount>,
}

impl Inventory {
    /// The stacks held, in ascending order of their items.
    pub closed spec fn stacks(&self) -> Seq<(Interned, ItemAmount)> {
        self.items.entries()
    }

    /// The stacks ascend, and none of them is empty.
    pub open spec fn wf(&self) -> bool {
        &&& ascending(self.stacks())
        &&& forall|i: int| 0 <= i < self.stacks().len() ==> (#[trigger] self.stacks()[i]).1 > 0
    }

    /// The count of each item that is held.
    pub open spec fn view(&self) -> Map<Interned, ItemAmount> {
        entries_map(self.stacks())
    }

    /// How many of `item` are held.
    pub open spec fn count(&self, item: Interned) -> ItemAmount {
        count_in(self@, item)
    }

    /// A well-formed inventory writes down no count of zero.
    pub proof fn lemma_positive(&self)
        requires
            self.wf(),
        ensures
            positive(self@),
    {
        let s = self.stacks();
        assert forall|item: Interned| self@.contains_key(item) implies #[trigger] self@[item] > 0 by {
            let i = crate::ordered_map::position(s, item);
            lemma_entry_in_map(s, i);
        }
    }

    /// An inventory that holds nothing.
    pub fn new() -> (inventory: Inventory)
        ensures
            inventory.wf(),
            inventory@ == Map::<Interned, ItemAmount>::empty(),
            inventory.stacks() == Seq::<(Interned, ItemAmount)>::empty(),
    {
        Inventory { items: OrderedMap::new() }
    }

    /// The number of kinds of item held.
    pub fn len(&self) -> (n: usize)
        ensures
            n == self.stacks().len(),
    {
        self.items.len()
    }

    /// Whether nothing is held.
    pub fn is_empty(&self) -> (b: bool)
        ensures
            b == (self.stacks().len() == 0),
    {
        self.items.is_empty()
    }

    /// The `i`-th stack, in ascending order of the items.
    pub fn stack_at(&self, i: usize) -> (stack: (Interned, ItemAmount))
        requires
            i < self.stacks().len(),
        ensures
            stack == self.stacks()[i as int],
    {
        (self.items.key_at(i), *self.items.value_at(i))
    }

    /// How many of `item` are held.
    pub fn get(&self, item: Interned) -> (amount: ItemAmount)
        requires
            self.wf(),
        ensures
            amount == self.count(item),
    {
        match self.items.get(item) {
            Some(amount) => *amount,
            None => 0,
        }
    }

    /// Whether at least `amount` of `item` is held.
    pub fn contains(&self, item: Interned, amount: ItemAmount) -> (b: bool)
        requires
            self.wf(),
        ensures
            b == (self.count(item) >= amount),
    {
        self.get(item) >= amount
    }

    /// Sets the count of `item`.
    pub fn insert(&mut self, item: Interned, amount: ItemAmount)
        requires
            old(self).wf(),
        ensures
            final(self).wf(),
            final(self)@ == with_count(old(self)@, item, amount),
    {
        proof {
            self.lemma_positive();
        }
        if amount == 0 {
            self.items.remove(item);
        } else {
            self.items.insert(item, amount);
        }
        proof {
            let s = self.stacks();
            assert forall|i: int| 0 <= i < s.len() implies (#[trigger] s[i]).1 > 0 by {
                lemma_entry_in_map(s, i);
            }
        }
    }

    /// Adds `amount` of `item`; the count stops at the cap.
    pub fn add(&mut self, item: Interned, amount: ItemAmount)
        requires
            old(self).wf(),
        ensures
            final(self).wf(),
            final(self)@ == added(old(self)@, item, amount),
    {
        let stored = self.get(item);
        let sum = if amount > AMOUNT_CAP - stored {
            AMOUNT_CAP
        } else {
            stored + amount
        };
        self.insert(item, sum);
    }

    /// Takes up to `amount` of `item` out and says how many it took; `None`
    /// where nothing of `item` is held.
    pub fn take(&mut self, item: Interned, amount: ItemAmount) -> (out: Option<ItemAmount>)
        requires
            old(self).wf(),
        ensures
            final(self).wf(),
            out == taken_amount(old(self)@, item, amount),
            final(self)@ == taken(old(self)@, item, amount),
    {
        let stored = self.get(item);
        if stored == 0 {
            None
        } else {
            let taking = if stored <= amount {
                stored
            } else {
                amount
            };
            self.insert(item, stored - taking);
            Some(taking)
        }
    }

    /// Adds each stack of `stacks` in turn.
    pub fn add_all(&mut self, stacks: &Vec<ItemStack>)
        requires
            old(self).wf(),
        ensures
            final(self).wf(),
            final(self)@ == add_all(old(self)@, stacks@),
    {
        let n = stacks.len();
        let mut i: usize = 0;
        while i < n
            invariant
                n == stacks@.len(),
                i <= n,
                self.wf(),
                self@ == add_all(old(self)@, stacks@.take(i as int)),
            decreases n - i,
        {
            proof {
                assert(stacks@.take(i as int + 1).drop_last() =~= stacks@.take(i as int));
            }
            self.add(stacks[i].item.id, stacks[i].amount);
            i = i + 1;
        }
        proof {
            assert(stacks@.take(n as int) =~= stacks@);
        }
    }

    /// Takes each stack of `stacks` out in turn, every one in full, where all
    /// of them can be had; otherwise takes nothing. Says which.
    pub fn try_take_all(&mut self, stacks: &Vec<ItemStack>) -> (done: bool)
        requires
            old(self).wf(),
        ensures
            final(self).wf(),
            done == can_take_all(old(self)@, stacks@),
            done ==> final(self)@ == take_all(old(self)@, stacks@),
            !done ==> final(self)@ == old(self)@,
    {
        let mut rest = self.duplicate();
        let n = stacks.len();
        let mut i: usize = 0;
        while i < n
            invariant
                n == stacks@.len(),
                i <= n,
                rest.wf(),
                self.wf(),
                self@ == old(self)@,
                can_take_all(old(self)@, stacks@.take(i as int)),
                rest@ == take_all(old(self)@, stacks@.take(i as int)),
            decreases n - i,
        {
            proof {
                assert(stacks@.take(i as int + 1).drop_last() =~= stacks@.take(i as int));
            }
            let stored = rest.get(stacks[i].item.id);
            if stored < stacks[i].amount {
                proof {
                    lemma_cannot_take_from(old(self)@, stacks@, i as int + 1);
                }
                return false;
            }
            rest.insert(stacks[i].item.id, stored - stacks[i].amount);
            i = i + 1;
        }
        proof {
            assert(stacks@.take(n as int) =~= stacks@);
        }
        *self = rest;
        true
    }

    /// Whether each stack of `stacks` can be taken out in turn, every one in
    /// full.
    pub fn holds_all(&self, stacks: &Vec<ItemStack>) -> (b: bool)
        requires
            self.wf(),
        ensures
            b == can_take_all(self@, stacks@),
    {
        let mut copy = self.duplicate();
        copy.try_take_all(stacks)
    }

    /// A copy with the same stacks.
    pub fn duplicate(&self) -> (copy: Inventory)
        ensures
            copy.stacks() == self.stacks(),
            copy@ == self@,
            copy.wf() == self.wf(),
    {
        Inventory { items: self.items.duplicate() }
    }
}

impl Clone for Inventory {
    fn clone(&self) -> (copy: Self)
        ensures
            copy.stacks() == self.stacks(),
    {
        self.duplicate()
    }
}

} // verus!
