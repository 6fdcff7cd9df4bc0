//! The typed values that a tile or the world keeps, and the store that holds
//! them under interned keys.

use crate::coord::TileCoord;
use crate::interner::Interned;
use crate::inventory::{Inventory, ItemAmount};
use crate::ordered_map::{ascending, entries_map, lemma_entry_in_map, position, OrderedMap};
use vstd::prelude::*;

verus! {

/// A set of identifiers.
pub struct IdSet {
    members: OrderedMap<Interned, ()>,
}

impl View for IdSet {
    type V = Set<Interned>;

    /// The set of the members.
    open spec fn view(&self) -> Set<Interned> {
        entries_map(self.members()).dom()
    }
}

impl IdSet {
    /// The members, in ascending order.
    pub closed spec fn members(&self) -> Seq<(Interned, ())> {
        self.members.entries()
    }

    /// The members ascend.
    pub open spec fn wf(&self) -> bool {
        ascending(self.members())
    }

    /// Each member of the set stands in the list of members, and the other
    /// way round.
    pub proof fn lemma_members(&self)
        requires
            self.wf(),
        ensures
            forall|id: Interned|
                self@.contains(id) <==> exists|i: int|
                    0 <= i < self.members().len() && (#[trigger] self.members()[i]).0 == id,
    {
    }

    /// A set without members.
    pub fn new() -> (set: IdSet)
        ensures
            set.wf(),
            set.members() == Seq::<(Interned, ())>::empty(),
            set@ == Set::<Interned>::empty(),
    {
        let set = IdSet { members: OrderedMap::new() };
        assert(set@ =~= Set::<Interned>::empty());
        set
    }

    /// The number of members.
    pub fn len(&self) -> (n: usize)
        ensures
            n == self.members().len(),
    {
        self.members.len()
    }

    /// The `i`-th member in ascending order.
    pub fn member_at(&self, i: usize) -> (id: Interned)
        requires
            i < self.members().len(),
        ensures
            id == self.members()[i as int].0,
    {
        self.members.key_at(i)
    }

    /// Whether `id` is a member.
    pub fn contains(&self, id: Interned) -> (b: bool)
        requires
            self.wf(),
        ensures
            b == self@.contains(id),
    {
        self.members.contains_key(id)
    }

    /// Puts `id` into the set; says whether it was new.
    pub fn insert(&mut self, id: Interned) -> (fresh: bool)
        requires
            old(self).wf(),
        ensures
            final(self).wf(),
            final(self)@ == old(self)@.insert(id),
            fresh == !old(self)@.contains(id),
    {
        let previous = self.members.insert(id, ());
        assert(self@ =~= old(self)@.insert(id));
        previous.is_none()
    }

    /// Takes `id` out of the set; says whether it was there.
    pub fn remove(&mut self, id: Interned) -> (present: bool)
        requires
            old(self).wf(),
        ensures
            final(self).wf(),
            final(self)@ == old(self)@.remove(id),
            present == old(self)@.contains(id),
    {
        let previous = self.members.remove(id);
        assert(self@ =~= old(self)@.remove(id));
        previous.is_some()
    }

    /// A copy with the same members.
    pub fn duplicate(&self) -> (copy: IdSet)
        ensures
            copy.members() == self.members(),
            copy@ == self@,
            copy.wf() == self.wf(),
    {
        IdSet { members: self.members.duplicate() }
    }
}

/// One typed value.
pub enum Data {
    Amount(ItemAmount),
    Id(Interned),
    Coord(TileCoord),
    Bool(bool),
    Inventory(Inventory),
    VecId(Vec<Interned>),
    SetId(IdSet),
}

/// What a value stands for.
pub enum DataView {
    Amount(ItemAmount),
    Id(Interned),
    Coord(TileCoord),
    Bool(bool),
    Inventory(Map<Interned, ItemAmount>),
    VecId(Seq<Interned>),
    SetId(Set<Interned>),
}

impl View for Data {
    type V = DataView;

    open spec fn view(&self) -> DataView {
        match self {
            Data::Amount(amount) => DataView::Amount(*amount),
            Data::Id(id) => DataView::Id(*id),
            Data::Coord(coord) => DataView::Coord(*coord),
            Data::Bool(b) => DataView::Bool(*b),
            Data::Inventory(inventory) => DataView::Inventory(inventory@),
            Data::VecId(ids) => DataView::VecId(ids@),
            Data::SetId(ids) => DataView::SetId(ids@),
        }
    }
}

/// A copy of a list of identifiers.
pub fn copy_ids(ids: &Vec<Interned>) -> (copy: Vec<Interned>)
    ensures
        copy@ == ids@,
{
    let mut copy: Vec<Interned> = Vec::new();
    let n = ids.len();
    let mut i: usize = 0;
    while i < n
        invariant
            n == ids@.len(),
            i <= n,
            copy@ == ids@.take(i as int),
        decreases n - i,
    {
        let ghost before = copy@;
        copy.push(ids[i]);
        proof {
            assert(ids@.take(i as int + 1) =~= before.push(ids@[i as int]));
        }
        i = i + 1;
    }
    proof {
        assert(ids@.take(n as int) =~= ids@);
    }
    copy
}

impl Data {
    /// The collections inside the value are well formed.
    pub open spec fn wf(&self) -> bool {
        match self {
            Data::Inventory(inventory) => inventory.wf(),
            Data::SetId(ids) => ids.wf(),
            _ => true,
        }
    }

    /// A copy that stands for the same value.
    pub fn duplicate(&self) -> (copy: Data)
        ensures
            copy@ == self@,
            copy.wf() == self.wf(),
    {
        match self {
            Data::Amount(amount) => Data::Amount(*amount),
            Data::Id(id) => Data::Id(*id),
            Data::Coord(coord) => Data::Coord(*coord),
            Data::Bool(b) => Data::Bool(*b),
            Data::Inventory(inventory) => Data::Inventory(inventory.duplicate()),
            Data::VecId(ids) => Data::VecId(copy_ids(ids)),
            Data::SetId(ids) => Data::SetId(ids.duplicate()),
        }
    }

    /// The amount, where the value is one.
    pub fn into_amount(self) -> (out: Option<ItemAmount>)
        ensures
            out == (match self {
                Data::Amount(amount) => Some(amount),
                _ => None,
            }),
    {
        match self {
            Data::Amount(amount) => Some(amount),
            _ => None,
        }
    }

    /// The identifier, where the value is one.
    pub fn into_id(self) -> (out: Option<Interned>)
        ensures
            out == (match self {
                Data::Id(id) => Some(id),
                _ => None,
            }),
    {
        match self {
            Data::Id(id) => Some(id),
            _ => None,
        }
    }

    /// The coordinate, where the value is one.
    pub fn into_coord(self) -> (out: Option<TileCoord>)
        ensures
            out == (match self {
                Data::Coord(coord) => Some(coord),
                _ => None,
            }),
    {
        match self {
            Data::Coord(coord) => Some(coord),
            _ => None,
        }
    }

    /// The truth value, where the value is one.
    pub fn into_bool(self) -> (out: Option<bool>)
        ensures
            out == (match self {
                Data::Bool(b) => Some(b),
                _ => None,
            }),
    {
        match self {
            Data::Bool(b) => Some(b),
            _ => None,
        }
    }

    /// The inventory, where the value is one.
    pub fn into_inventory(self) -> (out: Option<Inventory>)
        ensures
            out == (match self {
                Data::Inventory(inventory) => Some(inventory),
                _ => None,
            }),
    {
        match self {
            Data::Inventory(inventory) => Some(inventory),
            _ => None,
        }
    }

    /// The amount, where the value is one.
    pub fn as_amount(&self) -> (out: Option<ItemAmount>)
        ensures
            out == amount_of(self@),
    {
        match self {
            Data::Amount(amount) => Some(*amount),
            _ => None,
        }
    }

    /// The identifier, where the value is one.
    pub fn as_id(&self) -> (out: Option<Interned>)
        ensures
            out == id_of(self@),
    {
        match self {
            Data::Id(id) => Some(*id),
            _ => None,
        }
    }

    /// The coordinate, where the value is one.
    pub fn as_coord(&self) -> (out: Option<TileCoord>)
        ensures
            out == coord_of(self@),
    {
        match self {
            Data::Coord(coord) => Some(*coord),
            _ => None,
        }
    }

    /// The truth value, where the value is one.
    pub fn as_bool(&self) -> (out: Option<bool>)
        ensures
            out == bool_of(self@),
    {
        match self {
            Data::Bool(b) => Some(*b),
            _ => None,
        }
    }

    /// The inventory, where the value is one.
    pub fn as_inventory(&self) -> (out: Option<&Inventory>)
        ensures
            out is Some <==> self is Inventory,
            out matches Some(inventory) ==> self == Data::Inventory(*inventory),
    {
        match self {
            Data::Inventory(inventory) => Some(inventory),
            _ => None,
        }
    }
}

/// The amount that a value stands for.
pub open spec fn amount_of(value: DataView) -> Option<ItemAmount> {
    match value {
        DataView::Amount(amount) => Some(amount),
        _ => None,
    }
}

/// The identifier that a value stands for.
pub open spec fn id_of(value: DataView) -> Option<Interned> {
    match value {
        DataView::Id(id) => Some(id),
        _ => None,
    }
}

/// The coordinate that a value stands for.
pub open spec fn coord_of(value: DataView) -> Option<TileCoord> {
    match value {
        DataView::Coord(coord) => Some(coord),
        _ => None,
    }
}

/// The truth value that a value stands for.
pub open spec fn bool_of(value: DataView) -> Option<bool> {
    match value {
        DataView::Bool(b) => Some(b),
        _ => None,
    }
}

/// The counts that a value stands for: those of the inventory, where it is
/// one, and none otherwise.
pub open spec fn counts_of(value: Option<DataView>) -> Map<Interned, ItemAmount> {
    match value {
        Some(DataView::Inventory(counts)) => counts,
        _ => Map::empty(),
    }
}

/// What stands under `key` in `data`.
pub open spec fn lookup(data: Map<Interned, DataView>, key: Interned) -> Option<DataView> {
    if data.contains_key(key) {
        Some(data[key])
    } else {
        None
    }
}

/// The views of the values of a sequence of pairs.
pub open spec fn pair_views(pairs: Seq<(Interned, Data)>) -> Seq<(Interned, DataView)> {
    pairs.map_values(|pair: (Interned, Data)| (pair.0, pair.1@))
}

/// A store of typed values under interned keys: at most one value per key.
pub struct DataMap {
    values: OrderedMap<Interned, Data>,
}

impl DataMap {
    /// The keys and values, in ascending order of the keys.
    pub closed spec fn pairs(&self) -> Seq<(Interned, Data)> {
        self.values.entries()
    }

    /// The keys ascend, and every value is well formed.
    pub open spec fn wf(&self) -> bool {
        &&& ascending(self.pairs())
        &&& forall|i: int| 0 <= i < self.pairs().len() ==> (#[trigger] self.pairs()[i]).1.wf()
    }

    /// What each key stands for.
    pub open spec fn view(&self) -> Map<Interned, DataView> {
        entries_map(self.pairs()).map_values(|value: Data| value@)
    }

    /// The keys and what the values stand for, in ascending order of the keys.
    pub open spec fn listing(&self) -> Seq<(Interned, DataView)> {
        pair_views(self.pairs())
    }

    /// A store without values.
    pub fn new() -> (data: DataMap)
        ensures
            data.wf(),
            data@ == Map::<Interned, DataView>::empty(),
            data.pairs() == Seq::<(Interned, Data)>::empty(),
    {
        let data = DataMap { values: OrderedMap::new() };
        assert(data@ =~= Map::<Interned, DataView>::empty());
        data
    }

    /// The number of keys.
    pub fn len(&self) -> (n: usize)
        ensures
            n == self.pairs().len(),
    {
        self.values.len()
    }

    /// The `i`-th key in ascending order.
    pub fn key_at(&self, i: usize) -> (key: Interned)
        requires
            i < self.pairs().len(),
        ensures
            key == self.pairs()[i as int].0,
    {
        self.values.key_at(i)
    }

    /// The value under the `i`-th key in ascending order.
    pub fn value_at(&self, i: usize) -> (value: &Data)
        requires
            i < self.pairs().len(),
        ensures
            *value == self.pairs()[i as int].1,
    {
        self.values.value_at(i)
    }

    /// Whether a value stands under `key`.
    pub fn contains_key(&self, key: Interned) -> (b: bool)
        requires
            self.wf(),
        ensures
            b == self@.contains_key(key),
    {
        self.values.contains_key(key)
    }

    /// The value under `key`.
    pub fn get(&self, key: Interned) -> (out: Option<&Data>)
        requires
            self.wf(),
        ensures
            out is Some <==> self@.contains_key(key),
            out matches Some(value) ==> value@ == self@[key] && value.wf(),
            (match out {
                Some(value) => Some(value@),
                None => None,
            }) == lookup(self@, key),
    {
        let out = self.values.get(key);
        proof {
            if out is Some {
                let i = position(self.pairs(), key);
                lemma_entry_in_map(self.pairs(), i);
            }
        }
        out
    }

    /// Puts `value` under `key`, in place of what was there.
    pub fn set(&mut self, key: Interned, value: Data)
        requires
            old(self).wf(),
            value.wf(),
        ensures
            final(self).wf(),
            final(self)@ == old(self)@.insert(key, value@),
    {
        let ghost before = self.pairs();
        self.values.insert(key, value);
        proof {
            let after = self.pairs();
            assert forall|i: int| 0 <= i < after.len() implies (#[trigger] after[i]).1.wf() by {
                lemma_entry_in_map(after, i);
                if after[i].0 != key {
                    assert(entries_map(before).contains_key(after[i].0));
                    let j = position(before, after[i].0);
                    lemma_entry_in_map(before, j);
                }
            }
            assert(self@ =~= old(self)@.insert(key, value@));
        }
    }

    /// Takes out what stands under `key`.
    pub fn remove(&mut self, key: Interned) -> (out: Option<Data>)
        requires
            old(self).wf(),
        ensures
            final(self).wf(),
            final(self)@ == old(self)@.remove(key),
            out is Some <==> old(self)@.contains_key(key),
            out matches Some(value) ==> value@ == old(self)@[key] && value.wf(),
    {
        let ghost before = self.pairs();
        let out = self.values.remove(key);
        proof {
            let after = self.pairs();
            assert forall|i: int| 0 <= i < after.len() implies (#[trigger] after[i]).1.wf() by {
                lemma_entry_in_map(after, i);
                assert(entries_map(before).contains_key(after[i].0));
                let j = position(before, after[i].0);
                lemma_entry_in_map(before, j);
            }
            assert(self@ =~= old(self)@.remove(key));
            if out is Some {
                let j = position(before, key);
                lemma_entry_in_map(before, j);
            }
        }
        out
    }

    /// A copy that stands for the same values.
    pub fn duplicate(&self) -> (copy: DataMap)
        requires
            self.wf(),
        ensures
            copy.wf(),
            copy@ == self@,
            copy.listing() == self.listing(),
    {
        let mut copy = DataMap::new();
        let n = self.values.len();
        let mut i: usize = 0;
        while i < n
            invariant
                self.wf(),
                n == self.pairs().len(),
                i <= n,
                copy.wf(),
                copy.pairs().len() == i,
                forall|j: int| 0 <= j < i ==> (#[trigger] copy.pairs()[j]).0 == self.pairs()[j].0,
                forall|j: int| 0 <= j < i ==> (#[trigger] copy.pairs()[j]).1@ == self.pairs()[j].1@,
            decreases n - i,
        {
            let key = self.values.key_at(i);
            let value = self.values.value_at(i).duplicate();
            let ghost before = copy.pairs();
            proof {
                assert forall|j: int| 0 <= j < before.len() implies (#[trigger] before[j]).0.index
                    < key.index by {
                    assert(before[j].0 == self.pairs()[j].0);
                    assert(self.pairs()[j].0.index < self.pairs()[i as int].0.index);
                }
                assert(self.pairs()[i as int].1.wf());
            }
            copy.values.push_last(key, value);
            i = i + 1;
        }
        proof {
            assert(copy.listing() =~= self.listing());
            lemma_listing_view(copy.pairs());
            lemma_listing_view(self.pairs());
        }
        copy
    }
}

/// The map of the views of a sequence of pairs is the map of the pairs, each
/// value taken by its view.
pub proof fn lemma_listing_view(pairs: Seq<(Interned, Data)>)
    requires
        ascending(pairs),
    ensures
        ascending(pair_views(pairs)),
        entries_map(pair_views(pairs)) == entries_map(pairs).map_values(|value: Data| value@),
{
    let views = pair_views(pairs);
    assert forall|i: int, j: int| 0 <= i < j < views.len() implies (#[trigger] views[i]).0.index < (
    #[trigger] views[j]).0.index by {
        assert(pairs[i].0.index < pairs[j].0.index);
    }
    let left = entries_map(views);
    let right = entries_map(pairs).map_values(|value: Data| value@);
    assert forall|key: Interned| left.contains_key(key) == right.contains_key(key) by {
        if left.contains_key(key) {
            let i = position(views, key);
            assert(pairs[i].0 == key);
        }
        if right.contains_key(key) {
            let i = position(pairs, key);
            assert(views[i].0 == key);
        }
    }
    assert forall|key: Interned| left.contains_key(key) implies #[trigger] left[key] == right[key] by {
        let i = position(views, key);
        lemma_entry_in_map(views, i);
        lemma_entry_in_map(pairs, i);
    }
    assert(left =~= right);
}

} // verus!
