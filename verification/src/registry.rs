//! The configuration of a world: its tile types, items, tags and scripts,
//! and the interner that names them.

use crate::data::{bool_of, lookup, DataMap, DataView, IdSet};
use crate::ids::GuiIds;
use crate::models::Models;
use crate::interner::{Interned, Interner};
use crate::coord::TileCoord;
use crate::inventory::{Item, ItemAmount};
use crate::script::ItemStackRaw;
use crate::ordered_map::{
    ascending, entries_map, lemma_entry_in_map, lemma_value_views, position, value_views, OrderedMap,
};
use crate::script::{Script, ScriptTable, ScriptView};
use crate::tile_entity::DataIds;
use vstd::prelude::*;

verus! {

/// A tile type: the model that shows it, the function that it carries out,
/// and the data that every tile of the type goes by.
pub struct Tile {
    pub model: Interned,
    pub function: Option<Interned>,
    pub data: DataMap,
}

/// A typed value as configuration names it: identifiers by their written
/// form.
#[derive(Debug)]
pub enum DataRaw {
    Amount(ItemAmount),
    Id(String),
    Coord(TileCoord),
    Bool(bool),
    Inventory(Vec<ItemStackRaw>),
    VecId(Vec<String>),
    SetId(Vec<String>),
}

/// A tile type as configuration names it.
#[derive(Debug)]
pub struct TileRaw {
    pub id: String,
    pub function: Option<String>,
    pub model: String,
    pub data: Vec<(String, DataRaw)>,
}

/// A tag as configuration names it.
#[derive(Debug)]
pub struct TagRaw {
    pub id: String,
    pub entries: Vec<String>,
}

/// What a tile type stands for.
pub struct TileTypeView {
    pub model: Interned,
    pub function: Option<Interned>,
    pub data: Map<Interned, DataView>,
}

impl View for Tile {
    type V = TileTypeView;

    open spec fn view(&self) -> TileTypeView {
        TileTypeView { model: self.model, function: self.function, data: self.data@ }
    }
}

/// Whether `item` is `other`, or belongs to the tag `other`: it is among the
/// entries of the tag, or belongs to a tag among them. Tags inside tags are
/// followed `depth` levels down.
pub open spec fn matches_tag(
    tags: Map<Interned, Set<Interned>>,
    item: Interned,
    other: Interned,
    depth: nat,
) -> bool
    decreases depth,
{
    item == other || (depth > 0 && tags.contains_key(other) && exists|entry: Interned|
        #[trigger] tags[other].contains(entry) && matches_tag(tags, item, entry, (depth - 1) as nat))
}

/// The items of `items` that are `id` or belong to the tag `id`, in the order
/// of `items`.
pub open spec fn items_matching(
    items: Seq<(Interned, Item)>,
    tags: Map<Interned, Set<Interned>>,
    id: Interned,
    depth: nat,
) -> Seq<Item>
    decreases items.len(),
{
    if items.len() == 0 {
        Seq::empty()
    } else {
        let before = items_matching(items.drop_last(), tags, id, depth);
        if matches_tag(tags, items.last().1.id, id, depth) {
            before.push(items.last().1)
        } else {
            before
        }
    }
}

/// The tile types, items, tags and scripts of a configuration.
pub struct Registry {
    tiles: OrderedMap<Interned, Tile>,
    scripts: ScriptTable,
    items: OrderedMap<Interned, Item>,
    tags: OrderedMap<Interned, IdSet>,
    none: Interned,
    data_ids: DataIds,
    gui_ids: GuiIds,
}

impl Registry {
    /// The tile types, in ascending order of their handles.
    pub closed spec fn tile_entries(&self) -> Seq<(Interned, Tile)> {
        self.tiles.entries()
    }

    /// The items, in ascending order of their handles.
    pub closed spec fn item_entries(&self) -> Seq<(Interned, Item)> {
        self.items.entries()
    }

    /// The tags, in ascending order of their handles.
    pub closed spec fn tag_entries(&self) -> Seq<(Interned, IdSet)> {
        self.tags.entries()
    }

    /// The scripts.
    pub closed spec fn scripts(&self) -> Map<Interned, ScriptView> {
        self.scripts@
    }

    /// The type that stands for no tile.
    pub closed spec fn none_id(&self) -> Interned {
        self.none
    }

    /// The keys of the data that the engine reads.
    pub closed spec fn data_ids(&self) -> DataIds {
        self.data_ids
    }

    /// The identifiers of the parts of the tile menus.
    pub closed spec fn gui_ids(&self) -> GuiIds {
        self.gui_ids
    }

    /// What each tile type stands for.
    pub open spec fn tiles(&self) -> Map<Interned, TileTypeView> {
        entries_map(value_views(self.tile_entries()))
    }

    /// The item under each handle.
    pub open spec fn items(&self) -> Map<Interned, Item> {
        entries_map(self.item_entries())
    }

    /// The entries of each tag.
    pub open spec fn tags(&self) -> Map<Interned, Set<Interned>> {
        entries_map(value_views(self.tag_entries()))
    }

    /// How many levels of tags inside tags are followed: as many as there
    /// are tags.
    pub open spec fn tag_depth(&self) -> nat {
        self.tag_entries().len()
    }

    /// The table of scripts is well formed.
    pub closed spec fn scripts_wf(&self) -> bool {
        self.scripts.wf()
    }

    /// Every table ascends, every collection in it is well formed, every
    /// item is filed under its own handle, and the keys of the data that the
    /// engine reads are distinct.
    pub open spec fn wf(&self) -> bool {
        &&& ascending(self.tile_entries())
        &&& ascending(self.item_entries())
        &&& ascending(self.tag_entries())
        &&& self.scripts_wf()
        &&& self.data_ids().wf()
        &&& forall|i: int|
            0 <= i < self.tile_entries().len() ==> (#[trigger] self.tile_entries()[i]).1.data.wf()
        &&& forall|i: int|
            0 <= i < self.item_entries().len() ==> (#[trigger] self.item_entries()[i]).1.id
                == self.item_entries()[i].0
        &&& forall|i: int| 0 <= i < self.tag_entries().len() ==> (#[trigger] self.tag_entries()[i]).1.wf()
    }

    /// A configuration without tile types, items, tags or scripts.
    pub fn new(none: Interned, data_ids: DataIds, gui_ids: GuiIds) -> (registry: Registry)
        requires
            data_ids.wf(),
        ensures
            registry.wf(),
            registry.tile_entries().len() == 0,
            registry.item_entries().len() == 0,
            registry.tag_entries().len() == 0,
            registry.scripts() == Map::<Interned, ScriptView>::empty(),
            registry.none_id() == none,
            registry.data_ids() == data_ids,
            registry.gui_ids() == gui_ids,
    {
        Registry {
            tiles: OrderedMap::new(),
            scripts: ScriptTable::new(),
            items: OrderedMap::new(),
            tags: OrderedMap::new(),
            none,
            data_ids,
            gui_ids,
        }
    }

    /// The type that stands for no tile.
    pub fn none(&self) -> (none: Interned)
        ensures
            none == self.none_id(),
    {
        self.none
    }

    /// The keys of the data that the engine reads.
    pub fn ids(&self) -> (ids: DataIds)
        ensures
            ids == self.data_ids(),
    {
        self.data_ids
    }

    /// The identifiers of the parts of the tile menus.
    pub fn gui(&self) -> (ids: GuiIds)
        ensures
            ids == self.gui_ids(),
    {
        self.gui_ids
    }

    /// The scripts of the configuration.
    pub fn script_table(&self) -> (table: &ScriptTable)
        requires
            self.wf(),
        ensures
            table.wf(),
            table@ == self.scripts(),
    {
        &self.scripts
    }

    /// Puts `script` under its own handle.
    pub fn add_script(&mut self, script: Script)
        requires
            old(self).wf(),
        ensures
            final(self).wf(),
            final(self).scripts() == old(self).scripts().insert(script.id, script@),
            final(self).tile_entries() == old(self).tile_entries(),
            final(self).item_entries() == old(self).item_entries(),
            final(self).tag_entries() == old(self).tag_entries(),
            final(self).none_id() == old(self).none_id(),
            final(self).data_ids() == old(self).data_ids(),
            final(self).gui_ids() == old(self).gui_ids(),
    {
        self.scripts.insert(script);
    }

    /// Puts the item `id` into the configuration.
    pub fn add_item(&mut self, id: Interned)
        requires
            old(self).wf(),
        ensures
            final(self).wf(),
            final(self).items() == old(self).items().insert(id, Item { id }),
            final(self).tile_entries() == old(self).tile_entries(),
            final(self).tag_entries() == old(self).tag_entries(),
            final(self).scripts() == old(self).scripts(),
            final(self).none_id() == old(self).none_id(),
            final(self).data_ids() == old(self).data_ids(),
            final(self).gui_ids() == old(self).gui_ids(),
    {
        let ghost before = self.item_entries();
        self.items.insert(id, Item { id });
        proof {
            let after = self.item_entries();
            assert forall|i: int| 0 <= i < after.len() implies (#[trigger] after[i]).1.id == after[i].0 by {
                lemma_entry_in_map(after, i);
                if after[i].0 != id {
                    let j = position(before, after[i].0);
                    lemma_entry_in_map(before, j);
                }
            }
        }
    }

    /// Puts the tile type `tile` under `id`, in place of what was there.
    pub fn add_tile(&mut self, id: Interned, tile: Tile)
        requires
            old(self).wf(),
            tile.data.wf(),
        ensures
            final(self).wf(),
            final(self).tiles() == old(self).tiles().insert(id, tile@),
            final(self).item_entries() == old(self).item_entries(),
            final(self).tag_entries() == old(self).tag_entries(),
            final(self).scripts() == old(self).scripts(),
            final(self).none_id() == old(self).none_id(),
            final(self).data_ids() == old(self).data_ids(),
            final(self).gui_ids() == old(self).gui_ids(),
    {
        let ghost before = self.tile_entries();
        proof {
            lemma_value_views(before);
        }
        self.tiles.insert(id, tile);
        proof {
            let after = self.tile_entries();
            lemma_value_views(after);
            assert forall|i: int| 0 <= i < after.len() implies (#[trigger] after[i]).1.data.wf() by {
                lemma_entry_in_map(after, i);
                if after[i].0 != id {
                    let j = position(before, after[i].0);
                    lemma_entry_in_map(before, j);
                }
            }
            assert(self.tiles() =~= old(self).tiles().insert(id, tile@));
        }
    }

    /// Puts the tag `id` with the entries `entries` into the configuration,
    /// in place of what was there.
    pub fn add_tag(&mut self, id: Interned, entries: IdSet)
        requires
            old(self).wf(),
            entries.wf(),
        ensures
            final(self).wf(),
            final(self).tags() == old(self).tags().insert(id, entries@),
            final(self).tile_entries() == old(self).tile_entries(),
            final(self).item_entries() == old(self).item_entries(),
            final(self).scripts() == old(self).scripts(),
            final(self).none_id() == old(self).none_id(),
            final(self).data_ids() == old(self).data_ids(),
            final(self).gui_ids() == old(self).gui_ids(),
    {
        let ghost before = self.tag_entries();
        proof {
            lemma_value_views(before);
        }
        self.tags.insert(id, entries);
        proof {
            let after = self.tag_entries();
            lemma_value_views(after);
            assert forall|i: int| 0 <= i < after.len() implies (#[trigger] after[i]).1.wf() by {
                lemma_entry_in_map(after, i);
                if after[i].0 != id {
                    let j = position(before, after[i].0);
                    lemma_entry_in_map(before, j);
                }
            }
            assert(self.tags() =~= old(self).tags().insert(id, entries@));
        }
    }

    /// The tile type under `id`.
    pub fn tile(&self, id: Interned) -> (out: Option<&Tile>)
        requires
            self.wf(),
        ensures
            out is Some <==> self.tiles().contains_key(id),
            out matches Some(tile) ==> tile@ == self.tiles()[id] && tile.data.wf(),
    {
        proof {
            lemma_value_views(self.tile_entries());
        }
        let out = self.tiles.get(id);
        proof {
            if out is Some {
                let i = position(self.tile_entries(), id);
                lemma_entry_in_map(self.tile_entries(), i);
            }
        }
        out
    }

    /// The handles of the tile types, in ascending order.
    pub fn tile_ids(&self) -> (ids: Vec<Interned>)
        requires
            self.wf(),
        ensures
            forall|a: int, b: int| 0 <= a < b < ids@.len() ==> ids@[a] != ids@[b],
            forall|id: Interned|
                self.tiles().contains_key(id) <==> exists|j: int|
                    0 <= j < ids@.len() && ids@[j] == id,
            ids@.len() == self.tile_entries().len(),
            forall|j: int| 0 <= j < ids@.len() ==> ids@[j] == self.tile_entries()[j].0,
    {
        let mut ids: Vec<Interned> = Vec::new();
        let n = self.tiles.len();
        let mut i: usize = 0;
        while i < n
            invariant
                n == self.tile_entries().len(),
                i <= n,
                ids@.len() == i,
                forall|j: int| 0 <= j < i ==> ids@[j] == self.tile_entries()[j].0,
            decreases n - i,
        {
            ids.push(self.tiles.key_at(i));
            i = i + 1;
        }
        proof {
            let entries = self.tile_entries();
            lemma_value_views(entries);
            assert forall|a: int, b: int| 0 <= a < b < ids@.len() implies ids@[a] != ids@[b] by {
                assert(entries[a].0.index < entries[b].0.index);
            }
            assert forall|id: Interned|
                self.tiles().contains_key(id) <==> exists|j: int|
                    0 <= j < ids@.len() && ids@[j] == id by {
                if self.tiles().contains_key(id) {
                    let j = position(value_views(entries), id);
                    assert(ids@[j] == id);
                }
                if exists|j: int| 0 <= j < ids@.len() && ids@[j] == id {
                    let j = choose|j: int| 0 <= j < ids@.len() && ids@[j] == id;
                    assert(value_views(entries)[j].0 == id);
                }
            }
        }
        ids
    }

    /// Whether `id` is a tile type of the configuration.
    pub fn has_tile(&self, id: Interned) -> (b: bool)
        requires
            self.wf(),
        ensures
            b == self.tiles().contains_key(id),
    {
        self.tile(id).is_some()
    }

    /// Whether tiles of the type `id` can be linked: the type's data says so.
    pub fn can_link(&self, id: Interned) -> (b: bool)
        requires
            self.wf(),
        ensures
            b == (self.tiles().contains_key(id) && (match lookup(
                self.tiles()[id].data,
                self.data_ids().linked,
            ) {
                Some(value) => bool_of(value) == Some(true),
                None => false,
            })),
    {
        match self.tile(id) {
            Some(tile) => match tile.data.get(self.data_ids.linked) {
                Some(value) => match value.as_bool() {
                    Some(b) => b,
                    None => false,
                },
                None => false,
            },
            None => false,
        }
    }

    /// The item under `id`.
    pub fn item(&self, id: Interned) -> (out: Option<Item>)
        requires
            self.wf(),
        ensures
            out is Some <==> self.items().contains_key(id),
            out matches Some(item) ==> item == self.items()[id] && item.id == id,
    {
        let out = self.items.get(id);
        proof {
            if out is Some {
                let i = position(self.item_entries(), id);
                lemma_entry_in_map(self.item_entries(), i);
            }
        }
        match out {
            Some(item) => Some(*item),
            None => None,
        }
    }

    /// Whether `item` is `other` or belongs to the tag `other`, following
    /// tags inside tags `depth` levels down.
    fn matches(&self, item: Interned, other: Interned, depth: usize) -> (b: bool)
        requires
            self.wf(),
        ensures
            b == matches_tag(self.tags(), item, other, depth as nat),
        decreases depth,
    {
        if item == other {
            return true;
        }
        if depth == 0 {
            return false;
        }
        proof {
            lemma_value_views(self.tag_entries());
        }
        match self.tags.get(other) {
            None => false,
            Some(entries) => {
                proof {
                    let i = position(self.tag_entries(), other);
                    lemma_entry_in_map(self.tag_entries(), i);
                    lemma_entry_in_map(value_views(self.tag_entries()), i);
                    entries.lemma_members();
                }
                let n = entries.len();
                let mut i: usize = 0;
                while i < n
                    invariant
                        self.wf(),
                        depth > 0,
                        n == entries.members().len(),
                        i <= n,
                        entries.wf(),
                        item != other,
                        self.tags().contains_key(other),
                        self.tags()[other] == entries@,
                        forall|k: int|
                            0 <= k < i ==> !matches_tag(
                                self.tags(),
                                item,
                                (#[trigger] entries.members()[k]).0,
                                (depth - 1) as nat,
                            ),
                    decreases n - i,
                {
                    let entry = entries.member_at(i);
                    if self.matches(item, entry, depth - 1) {
                        proof {
                            entries.lemma_members();
                            assert(entries.members()[i as int].0 == entry);
                            assert(entries@.contains(entry));
                        }
                        return true;
                    }
                    i = i + 1;
                }
                proof {
                    entries.lemma_members();
                    assert forall|entry: Interned| entries@.contains(entry) implies !#[trigger] matches_tag(
                        self.tags(),
                        item,
                        entry,
                        (depth - 1) as nat,
                    ) by {
                        let k = choose|k: int|
                            0 <= k < entries.members().len() && (#[trigger] entries.members()[k]).0
                                == entry;
                        assert(!matches_tag(
                            self.tags(),
                            item,
                            entries.members()[k].0,
                            (depth - 1) as nat,
                        ));
                    }
                }
                false
            },
        }
    }

    /// The items that are `id` or belong to the tag `id`, in ascending order
    /// of their handles.
    pub fn matching_items(&self, id: Interned) -> (out: Vec<Item>)
        requires
            self.wf(),
        ensures
            out@ == items_matching(self.item_entries(), self.tags(), id, self.tag_depth()),
    {
        let mut out: Vec<Item> = Vec::new();
        let n = self.items.len();
        let depth = self.tags.len();
        let mut i: usize = 0;
        while i < n
            invariant
                self.wf(),
                n == self.item_entries().len(),
                depth == self.tag_depth(),
                i <= n,
                out@ == items_matching(
                    self.item_entries().take(i as int),
                    self.tags(),
                    id,
                    depth as nat,
                ),
            decreases n - i,
        {
            proof {
                assert(self.item_entries().take(i as int + 1).drop_last() =~= self.item_entries().take(
                    i as int,
                ));
            }
            let item = *self.items.value_at(i);
            if self.matches(item.id, id, depth) {
                out.push(item);
            }
            i = i + 1;
        }
        proof {
            assert(self.item_entries().take(n as int) =~= self.item_entries());
        }
        out
    }
}

/// Whether `item` is `other`, or belongs to the tag `other`.
pub fn id_eq_or_of_tag(registry: &Registry, item: Interned, other: Interned) -> (b: bool)
    requires
        registry.wf(),
    ensures
        b == matches_tag(registry.tags(), item, other, registry.tag_depth()),
{
    registry.matches(item, other, registry.tags.len())
}

/// The items that `id` stands for: the item itself where `id` is one, and
/// otherwise the items that belong to the tag `id`.
pub open spec fn items_of(registry: &Registry, id: Interned) -> Seq<Item> {
    if registry.items().contains_key(id) {
        seq![registry.items()[id]]
    } else {
        items_matching(registry.item_entries(), registry.tags(), id, registry.tag_depth())
    }
}

/// Whether each list that `cache` holds is the list of the items that its
/// key stands for.
pub open spec fn cache_agrees(cache: Map<Interned, Vec<Item>>, registry: &Registry) -> bool {
    forall|id: Interned| cache.contains_key(id) ==> (#[trigger] cache[id])@ == items_of(registry, id)
}

/// A copy of a list of items.
pub fn copy_items(items: &Vec<Item>) -> (copy: Vec<Item>)
    ensures
        copy@ == items@,
{
    let mut copy: Vec<Item> = Vec::new();
    let n = items.len();
    let mut i: usize = 0;
    while i < n
        invariant
            n == items@.len(),
            i <= n,
            copy@ == items@.take(i as int),
        decreases n - i,
    {
        let ghost before = copy@;
        copy.push(items[i]);
        proof {
            assert(items@.take(i as int + 1) =~= before.push(items@[i as int]));
        }
        i = i + 1;
    }
    proof {
        assert(items@.take(n as int) =~= items@);
    }
    copy
}

/// The interner, the configuration that it names, and the models.
pub struct ResourceManager {
    pub interner: Interner,
    pub registry: Registry,
    pub models: Models,
}

impl ResourceManager {
    /// The interner, the configuration and the models are well formed.
    pub open spec fn wf(&self) -> bool {
        self.interner.wf() && self.registry.wf() && self.models.wf()
    }

    /// A manager of `interner` and `registry`, without models.
    pub fn new(interner: Interner, registry: Registry) -> (manager: ResourceManager)
        ensures
            manager.interner == interner,
            manager.registry == registry,
            manager.models.wf(),
            manager.models.meshes().len() == 0,
    {
        ResourceManager { interner, registry, models: Models::new() }
    }

    /// The items that `id` stands for: the item itself where `id` is one, and
    /// otherwise the items that belong to the tag `id`. What is worked out
    /// for a tag is kept in `tag_cache` and taken from there the next time.
    pub fn get_items(&self, id: Interned, tag_cache: &mut OrderedMap<Interned, Vec<Item>>) -> (out:
        Vec<Item>)
        requires
            self.wf(),
            old(tag_cache).wf(),
            cache_agrees(old(tag_cache)@, &self.registry),
        ensures
            out@ == items_of(&self.registry, id),
            final(tag_cache).wf(),
            cache_agrees(final(tag_cache)@, &self.registry),
            self.registry.items().contains_key(id) ==> final(tag_cache)@ == old(tag_cache)@,
            !self.registry.items().contains_key(id) ==> final(tag_cache)@.dom() == old(
                tag_cache,
            )@.dom().insert(id),
    {
        match self.registry.item(id) {
            Some(item) => {
                let mut out: Vec<Item> = Vec::new();
                out.push(item);
                assert(out@ =~= seq![item]);
                out
            },
            None => {
                match tag_cache.get(id) {
                    Some(items) => {
                        let out = copy_items(items);
                        assert(tag_cache@.dom() =~= old(tag_cache)@.dom().insert(id));
                        out
                    },
                    None => {
                        let items = self.registry.matching_items(id);
                        let out = copy_items(&items);
                        tag_cache.insert(id, items);
                        assert(tag_cache@.dom() =~= old(tag_cache)@.dom().insert(id));
                        out
                    },
                }
            },
        }
    }
}

} // verus!
