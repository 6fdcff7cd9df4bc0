//! The map: which tile stands at which coordinate.

use crate::coord::{CullingRange, TileCoord};
use crate::data::DataMap;
use crate::interner::Interned;
use crate::ordered_map::{
    ascending, entries_map, lemma_entry_in_map, lemma_value_views, position, value_views, Key,
    OrderedMap,
};
use crate::inventory::ItemStack;
use crate::ordered_map::has_key;
use crate::script::{ScriptTable, ScriptView};
use crate::inventory::ItemAmount;
use crate::tile_entity::{
    buffer_of, destination, handled, link_of, linked_view, received, script_of, target_of, ticked,
    transfers, withdrawals, withdrawn_from, DataIds, TileContext, TileEntity, TileEntityMsg,
    TileEntityReply, TileView, Transfer,
};
use vstd::prelude::*;

verus! {

/// What the renderer draws for one tile.
#[derive(Clone, Copy, Debug, PartialEq, Eq, Structural)]
pub struct TileInstance {
    pub coord: TileCoord,
    pub id: Interned,
    pub modifier: u32,
    /// The direction that the tile points in.
    pub target: Option<TileCoord>,
}

/// What is asked of a render snapshot.
#[derive(Clone, Copy, Debug, PartialEq, Eq, Structural)]
pub struct RenderContext {
    /// The window of coordinates to draw.
    pub culling_range: CullingRange,
    /// The keys of the data that the engine reads.
    pub ids: DataIds,
}

/// A render snapshot: the tiles in the window, in ascending order of their
/// coordinates.
pub struct MapRenderInfo {
    pub instances: Vec<TileInstance>,
}

/// Summary of a map, for listing saved maps.
#[derive(Clone, Copy, Debug, PartialEq, Eq, Structural)]
pub struct MapInfo {
    pub tile_count: u64,
    pub save_time: u64,
}

/// What the renderer draws for `tile`.
pub open spec fn instance_of(tile: TileView, ids: DataIds) -> TileInstance {
    TileInstance {
        coord: tile.coord,
        id: tile.id,
        modifier: tile.modifier,
        target: target_of(tile.data, ids),
    }
}

/// The instances of the tiles of `listing` that lie within `range`, in the
/// order of `listing`.
pub open spec fn visible(
    listing: Seq<(TileCoord, TileView)>,
    range: CullingRange,
    ids: DataIds,
) -> Seq<TileInstance>
    decreases listing.len(),
{
    if listing.len() == 0 {
        Seq::empty()
    } else {
        let before = visible(listing.drop_last(), range, ids);
        if range.contains(listing.last().0) {
            before.push(instance_of(listing.last().1, ids))
        } else {
            before
        }
    }
}

/// A stack that went from one tile to another, and when.
#[derive(Clone, Copy, Debug, PartialEq, Eq, Structural)]
pub struct TransactionRecord {
    pub source: TileCoord,
    pub dest: TileCoord,
    pub stack: ItemStack,
    /// The instant of the tick, as the caller's clock gave it.
    pub instant: u64,
}

/// What a tick goes by: the keys of the data that the engine reads, the
/// scripts of the configuration, and the instant of the tick.
pub struct TickEnv {
    pub ids: DataIds,
    pub scripts: Map<Interned, ScriptView>,
    pub instant: u64,
}

/// The script that `tile` runs: the one that its data names, where the
/// configuration has it.
pub open spec fn script_for(tile: TileView, env: TickEnv) -> Option<ScriptView> {
    match script_of(tile.data, env.ids) {
        Some(id) => if env.scripts.contains_key(id) {
            Some(env.scripts[id])
        } else {
            None
        },
        None => None,
    }
}

/// Whether a tile stands where the `i`-th tile of `listing` pushes towards.
pub open spec fn target_alive(listing: Seq<(TileCoord, TileView)>, i: int, ids: DataIds) -> bool {
    match destination(listing[i].0, listing[i].1.data, ids) {
        Some(dest) => has_key(listing, dest),
        None => false,
    }
}

/// Where in `listing` the tile stands that the `i`-th tile is linked to:
/// nowhere if it is linked to no tile, to itself, or to where no tile
/// stands.
pub open spec fn link_index(listing: Seq<(TileCoord, TileView)>, i: int, ids: DataIds) -> Option<
    int,
> {
    match link_of(listing[i].1.data, ids) {
        Some(link) => if link != listing[i].0 && has_key(listing, link) {
            Some(position(listing, link))
        } else {
            None
        },
        None => None,
    }
}

/// The counts of the buffer of the tile that the `i`-th tile of `listing` is
/// linked to.
pub open spec fn linked_counts(listing: Seq<(TileCoord, TileView)>, i: int, ids: DataIds) -> Option<
    Map<Interned, ItemAmount>,
> {
    match link_index(listing, i, ids) {
        Some(l) => Some(buffer_of(listing[l].1.data, ids)),
        None => None,
    }
}

/// What the `i`-th tile of `listing` pushes away on a tick.
pub open spec fn step_transfers(listing: Seq<(TileCoord, TileView)>, i: int, env: TickEnv) -> Seq<
    Transfer,
> {
    transfers(
        listing[i].1,
        script_for(listing[i].1, env),
        env.ids,
        target_alive(listing, i, env.ids),
        linked_counts(listing, i, env.ids),
    )
}

/// What the `i`-th tile of `listing` draws on a tick from the tile that it
/// is linked to.
pub open spec fn step_withdrawals(listing: Seq<(TileCoord, TileView)>, i: int, env: TickEnv) -> Seq<
    ItemStack,
> {
    withdrawals(
        listing[i].1,
        script_for(listing[i].1, env),
        env.ids,
        linked_counts(listing, i, env.ids),
    )
}

/// A tile after it took in the stacks of the first `n` of `sent`, in turn.
pub open spec fn received_all(tile: TileView, sent: Seq<Transfer>, n: nat, ids: DataIds) -> TileView
    decreases n,
{
    if n == 0 {
        tile
    } else {
        received(received_all(tile, sent, (n - 1) as nat, ids), sent[n - 1].stack, ids)
    }
}

/// `listing` after its `i`-th tile ticked and nothing was drawn or pushed
/// yet: that tile is as its own tick leaves it.
pub open spec fn own_stepped(listing: Seq<(TileCoord, TileView)>, i: int, env: TickEnv) -> Seq<
    (TileCoord, TileView),
> {
    listing.update(
        i,
        (
            listing[i].0,
            ticked(
                listing[i].1,
                script_for(listing[i].1, env),
                env.ids,
                target_alive(listing, i, env.ids),
                linked_counts(listing, i, env.ids),
            ),
        ),
    )
}

/// `listing` after its `i`-th tile ticked and drew what it draws: the tile
/// that it is linked to has given that up.
pub open spec fn drawn_stepped(listing: Seq<(TileCoord, TileView)>, i: int, env: TickEnv) -> Seq<
    (TileCoord, TileView),
> {
    let own = own_stepped(listing, i, env);
    let drawn = step_withdrawals(listing, i, env);
    if drawn.len() == 0 {
        own
    } else {
        let l = link_index(listing, i, env.ids)->Some_0;
        own.update(l, (own[l].0, withdrawn_from(own[l].1, drawn, env.ids)))
    }
}

/// `listing` after its `i`-th tile ticked: that tile is as its own tick
/// leaves it, the tile that it is linked to has given up what was drawn, and
/// the tile that it pushes towards has taken in what was pushed.
pub open spec fn tile_stepped(listing: Seq<(TileCoord, TileView)>, i: int, env: TickEnv) -> Seq<
    (TileCoord, TileView),
> {
    let mid = drawn_stepped(listing, i, env);
    let sent = step_transfers(listing, i, env);
    if sent.len() == 0 {
        mid
    } else {
        let j = position(listing, sent[0].dest);
        mid.update(j, (mid[j].0, received_all(mid[j].1, sent, sent.len(), env.ids)))
    }
}

/// The records of the transfers `sent` at `instant`, in order.
pub open spec fn records_of(sent: Seq<Transfer>, instant: u64) -> Seq<TransactionRecord> {
    Seq::new(
        sent.len(),
        |k: int|
            TransactionRecord {
                source: sent[k].source,
                dest: sent[k].dest,
                stack: sent[k].stack,
                instant,
            },
    )
}

/// The records of what the `i`-th tile of `listing` pushes away on a tick.
pub open spec fn step_records(listing: Seq<(TileCoord, TileView)>, i: int, env: TickEnv) -> Seq<
    TransactionRecord,
> {
    records_of(step_transfers(listing, i, env), env.instant)
}

/// `listing` after its first `n` tiles ticked, one after the other in
/// ascending order of their coordinates.
pub open spec fn ticked_listing(listing: Seq<(TileCoord, TileView)>, env: TickEnv, n: nat) -> Seq<
    (TileCoord, TileView),
>
    decreases n,
{
    if n == 0 {
        listing
    } else {
        tile_stepped(ticked_listing(listing, env, (n - 1) as nat), n - 1, env)
    }
}

/// The records of what the first `n` tiles of `listing` push away on a tick,
/// in the order in which they tick.
pub open spec fn tick_records(listing: Seq<(TileCoord, TileView)>, env: TickEnv, n: nat) -> Seq<
    TransactionRecord,
>
    decreases n,
{
    if n == 0 {
        Seq::empty()
    } else {
        tick_records(listing, env, (n - 1) as nat) + step_records(
            ticked_listing(listing, env, (n - 1) as nat),
            n - 1,
            env,
        )
    }
}

/// Whether each tile of `s` is well formed, active, and stands where it is
/// filed.
pub open spec fn tiles_in_place(s: Seq<(TileCoord, TileEntity)>) -> bool {
    forall|i: int|
        0 <= i < s.len() ==> {
            &&& (#[trigger] s[i]).1.wf()
            &&& s[i].1@.coord == s[i].0
            &&& s[i].1@.active
        }
}

/// The tiles of a world, by coordinate.
pub struct TileMap {
    name: String,
    tiles: OrderedMap<TileCoord, TileEntity>,
}

impl TileMap {
    /// The tiles, in ascending order of their coordinates.
    pub closed spec fn entries(&self) -> Seq<(TileCoord, TileEntity)> {
        self.tiles.entries()
    }

    /// The name of the map.
    pub closed spec fn name_text(&self) -> Seq<char> {
        self.name@
    }

    /// The coordinates ascend, and every tile is well formed, active, and
    /// stands where it is filed.
    pub open spec fn wf(&self) -> bool {
        &&& ascending(self.entries())
        &&& tiles_in_place(self.entries())
    }

    /// The tiles and what they stand for, in ascending order of their
    /// coordinates.
    pub open spec fn listing(&self) -> Seq<(TileCoord, TileView)> {
        value_views(self.entries())
    }

    /// What stands at each coordinate.
    pub open spec fn view(&self) -> Map<TileCoord, TileView> {
        entries_map(self.listing())
    }

    /// The listing of a well-formed map ascends, and each of its tiles is
    /// what the map holds at its coordinate.
    pub proof fn lemma_listing(&self)
        requires
            self.wf(),
        ensures
            ascending(self.listing()),
            self.listing().len() == self.entries().len(),
            forall|i: int|
                0 <= i < self.listing().len() ==> {
                    &&& self@.contains_key((#[trigger] self.listing()[i]).0)
                    &&& self@[self.listing()[i].0] == self.listing()[i].1
                    &&& self.listing()[i].0 == self.entries()[i].0
                    &&& self.listing()[i].1 == self.entries()[i].1@
                    &&& self.listing()[i].1.coord == self.listing()[i].0
                    &&& self.listing()[i].1.active
                },
    {
        lemma_value_views(self.entries());
        assert forall|i: int| 0 <= i < self.listing().len() implies {
            &&& self@.contains_key((#[trigger] self.listing()[i]).0)
            &&& self@[self.listing()[i].0] == self.listing()[i].1
            &&& self.listing()[i].0 == self.entries()[i].0
            &&& self.listing()[i].1 == self.entries()[i].1@
            &&& self.listing()[i].1.coord == self.listing()[i].0
            &&& self.listing()[i].1.active
        } by {
            lemma_entry_in_map(self.listing(), i);
            assert(self.entries()[i].1.wf());
        }
    }

    /// The buffer of every tile of a well-formed map has a listing in
    /// ascending order that writes down no count of zero.
    pub proof fn lemma_buffers_listed(&self, ids: DataIds)
        requires
            self.wf(),
        ensures
            forall|i: int|
                0 <= i < self.listing().len() ==> crate::tile_entity::buffer_listed(
                    (#[trigger] self.listing()[i]).1,
                    ids,
                ),
    {
        self.lemma_listing();
        assert forall|i: int| 0 <= i < self.listing().len() implies crate::tile_entity::buffer_listed(
            (#[trigger] self.listing()[i]).1,
            ids,
        ) by {
            assert(self.entries()[i].1.wf());
            self.entries()[i].1.lemma_buffer_listed(ids);
        }
    }

    /// Two well-formed maps that hold the same tiles list them alike.
    pub proof fn lemma_listing_determined(&self, other: &TileMap)
        requires
            self.wf(),
            other.wf(),
            self@ == other@,
        ensures
            self.listing() == other.listing(),
    {
        self.lemma_listing();
        other.lemma_listing();
        crate::ordered_map::lemma_entries_unique(self.listing(), other.listing());
    }

    /// A map without tiles.
    pub fn new_empty(map_name: String) -> (map: TileMap)
        ensures
            map.wf(),
            map.name_text() == map_name@,
            map.entries() == Seq::<(TileCoord, TileEntity)>::empty(),
            map@ == Map::<TileCoord, TileView>::empty(),
    {
        let map = TileMap { name: map_name, tiles: OrderedMap::new() };
        assert(map@ =~= Map::<TileCoord, TileView>::empty());
        map
    }

    /// The name of the map.
    pub fn name(&self) -> (name: &str)
        ensures
            name@ == self.name_text(),
    {
        self.name.as_str()
    }

    /// The number of tiles.
    pub fn len(&self) -> (n: usize)
        ensures
            n == self.entries().len(),
            n == self.listing().len(),
    {
        self.tiles.len()
    }

    /// Summary of the map as saved at `save_time`.
    pub fn info(&self, save_time: u64) -> (info: MapInfo)
        ensures
            info.tile_count == self.entries().len(),
            info.save_time == save_time,
    {
        MapInfo { tile_count: self.tiles.len() as u64, save_time }
    }

    /// The coordinate of the `i`-th tile in ascending order.
    pub fn coord_at(&self, i: usize) -> (coord: TileCoord)
        requires
            i < self.entries().len(),
        ensures
            coord == self.entries()[i as int].0,
            coord == self.listing()[i as int].0,
    {
        self.tiles.key_at(i)
    }

    /// The `i`-th tile in ascending order of the coordinates.
    pub fn tile_at(&self, i: usize) -> (tile: &TileEntity)
        requires
            self.wf(),
            i < self.entries().len(),
        ensures
            tile.wf(),
            *tile == self.entries()[i as int].1,
            tile@ == self.listing()[i as int].1,
    {
        self.tiles.value_at(i)
    }

    /// Where in the ascending order the tile at `coord` stands.
    pub fn index_of(&self, coord: TileCoord) -> (out: Option<usize>)
        requires
            self.wf(),
        ensures
            out is Some <==> self@.contains_key(coord),
            out matches Some(i) ==> i < self.listing().len() && self.listing()[i as int].0 == coord
                && self.listing()[i as int].1 == self@[coord],
    {
        proof {
            self.lemma_listing();
            lemma_value_views(self.entries());
        }
        self.tiles.index_of(coord)
    }

    /// The tile at `coord`.
    pub fn get(&self, coord: TileCoord) -> (out: Option<&TileEntity>)
        requires
            self.wf(),
        ensures
            out is Some <==> self@.contains_key(coord),
            out matches Some(tile) ==> tile.wf() && tile@ == self@[coord],
    {
        proof {
            self.lemma_listing();
            lemma_value_views(self.entries());
        }
        match self.tiles.index_of(coord) {
            Some(i) => Some(self.tiles.value_at(i)),
            None => None,
        }
    }

    /// The type of the tile at `coord`.
    pub fn get_id(&self, coord: TileCoord) -> (out: Option<Interned>)
        requires
            self.wf(),
        ensures
            out is Some <==> self@.contains_key(coord),
            out matches Some(id) ==> id == self@[coord].id,
    {
        match self.get(coord) {
            Some(tile) => Some(tile.id()),
            None => None,
        }
    }

    /// Puts a fresh tile at `coord`, and hands out the tile that stood there,
    /// marked as removed.
    pub fn insert(&mut self, coord: TileCoord, id: Interned, modifier: u32, data: DataMap) -> (out:
        Option<TileEntity>)
        requires
            old(self).wf(),
            data.wf(),
        ensures
            final(self).wf(),
            final(self).name_text() == old(self).name_text(),
            final(self)@ == old(self)@.insert(
                coord,
                TileView { id, coord, modifier, data: data@, active: true },
            ),
            out is Some <==> old(self)@.contains_key(coord),
            out matches Some(tile) ==> tile.wf() && tile@ == (TileView {
                active: false,
                ..old(self)@[coord]
            }),
    {
        let ghost before = self.entries();
        proof {
            self.lemma_listing();
            lemma_value_views(before);
        }
        let tile = TileEntity::new(id, coord, modifier, data);
        let previous = self.tiles.insert(coord, tile);
        proof {
            let after = self.entries();
            assert forall|i: int| 0 <= i < after.len() implies {
                &&& (#[trigger] after[i]).1.wf()
                &&& after[i].1@.coord == after[i].0
                &&& after[i].1@.active
            } by {
                lemma_entry_in_map(after, i);
                if after[i].0 != coord {
                    let j = position(before, after[i].0);
                    lemma_entry_in_map(before, j);
                }
            }
            lemma_value_views(after);
            assert(self@ =~= old(self)@.insert(
                coord,
                TileView { id, coord, modifier, data: data@, active: true },
            ));
            if previous is Some {
                let j = position(before, coord);
                lemma_entry_in_map(before, j);
            }
        }
        match previous {
            Some(mut tile) => {
                tile.tombstone();
                Some(tile)
            },
            None => None,
        }
    }

    /// Takes the tile at `coord` out and hands it out, marked as removed.
    pub fn remove(&mut self, coord: TileCoord) -> (out: Option<TileEntity>)
        requires
            old(self).wf(),
        ensures
            final(self).wf(),
            final(self).name_text() == old(self).name_text(),
            final(self)@ == old(self)@.remove(coord),
            out is Some <==> old(self)@.contains_key(coord),
            out matches Some(tile) ==> tile.wf() && tile@ == (TileView {
                active: false,
                ..old(self)@[coord]
            }),
    {
        let ghost before = self.entries();
        proof {
            self.lemma_listing();
            lemma_value_views(before);
        }
        let previous = self.tiles.remove(coord);
        proof {
            let after = self.entries();
            assert forall|i: int| 0 <= i < after.len() implies {
                &&& (#[trigger] after[i]).1.wf()
                &&& after[i].1@.coord == after[i].0
                &&& after[i].1@.active
            } by {
                lemma_entry_in_map(after, i);
                let j = position(before, after[i].0);
                lemma_entry_in_map(before, j);
            }
            lemma_value_views(after);
            assert(self@ =~= old(self)@.remove(coord));
            if previous is Some {
                let j = position(before, coord);
                lemma_entry_in_map(before, j);
            }
        }
        match previous {
            Some(mut tile) => {
                tile.tombstone();
                Some(tile)
            },
            None => None,
        }
    }

    /// The tiles within the window of `context`, in ascending order of their
    /// coordinates.
    pub fn render_info(&self, context: &RenderContext) -> (info: MapRenderInfo)
        requires
            self.wf(),
        ensures
            info.instances@ == visible(self.listing(), context.culling_range, context.ids),
    {
        let mut instances: Vec<TileInstance> = Vec::new();
        let n = self.tiles.len();
        let mut i: usize = 0;
        proof {
            self.lemma_listing();
        }
        while i < n
            invariant
                self.wf(),
                n == self.listing().len(),
                n == self.entries().len(),
                i <= n,
                instances@ == visible(
                    self.listing().take(i as int),
                    context.culling_range,
                    context.ids,
                ),
            decreases n - i,
        {
            proof {
                self.lemma_listing();
                assert(self.listing().take(i as int + 1).drop_last() =~= self.listing().take(i as int));
            }
            let coord = self.tiles.key_at(i);
            let tile = self.tiles.value_at(i);
            if context.culling_range.is_in_bounds(coord) {
                instances.push(
                    TileInstance {
                        coord: tile.coord(),
                        id: tile.id(),
                        modifier: tile.modifier(),
                        target: tile.target(&context.ids),
                    },
                );
            }
            i = i + 1;
        }
        proof {
            assert(self.listing().take(n as int) =~= self.listing());
        }
        MapRenderInfo { instances }
    }

    /// Where the tile stands that the `i`-th tile pushes towards, and where
    /// the tile stands that it is linked to.
    fn neighbours_of(&self, i: usize, ids: &DataIds) -> (out: (Option<usize>, Option<usize>))
        requires
            self.wf(),
            i < self.listing().len(),
        ensures
            out.0 is Some == target_alive(self.listing(), i as int, *ids),
            out.0 matches Some(j) ==> j < self.listing().len() && j != i && j == position(
                self.listing(),
                destination(self.listing()[i as int].0, self.listing()[i as int].1.data, *ids)->Some_0,
            ),
            (match out.1 {
                Some(l) => Some(l as int),
                None => None,
            }) == link_index(self.listing(), i as int, *ids),
            out.1 matches Some(l) ==> l < self.listing().len() && l != i,
    {
        let ghost start = self.listing();
        proof {
            self.lemma_listing();
        }
        let tile = self.tile_at(i);
        let coord = tile.coord();
        let dest_index = match tile.destination(ids) {
            Some(dest) => self.index_of(dest),
            None => None,
        };
        let link_at = match tile.link(ids) {
            Some(link) => if link.q == coord.q && link.r == coord.r {
                None
            } else {
                self.index_of(link)
            },
            None => None,
        };
        proof {
            if destination(start[i as int].0, start[i as int].1.data, *ids) is Some {
                let dest = destination(start[i as int].0, start[i as int].1.data, *ids)->Some_0;
                assert(self@.contains_key(dest) == has_key(start, dest));
            }
            if link_of(start[i as int].1.data, *ids) is Some {
                let link = link_of(start[i as int].1.data, *ids)->Some_0;
                assert(self@.contains_key(link) == has_key(start, link));
            }
            if link_at is Some {
                lemma_entry_in_map(start, link_at->Some_0 as int);
            }
            if dest_index is Some {
                lemma_entry_in_map(start, dest_index->Some_0 as int);
            }
        }
        (dest_index, link_at)
    }

    /// Hands the stacks of `sent` to the `j`-th tile, in order, and writes a
    /// record of each behind `log`.
    fn deliver(
        &mut self,
        j: usize,
        sent: &Vec<Transfer>,
        ids: &DataIds,
        instant: u64,
        log: &mut Vec<TransactionRecord>,
    )
        requires
            old(self).wf(),
            j < old(self).listing().len(),
        ensures
            final(self).wf(),
            final(self).name_text() == old(self).name_text(),
            final(self).listing() == old(self).listing().update(
                j as int,
                (
                    old(self).listing()[j as int].0,
                    received_all(old(self).listing()[j as int].1, sent@, sent@.len(), *ids),
                ),
            ),
            final(log)@ == old(log)@ + records_of(sent@, instant),
    {
        let ghost mid = self.listing();
        let ghost records = records_of(sent@, instant);
        let quiet = TileContext { ids: *ids, script: None, target_alive: false, linked: None };
        let n = sent.len();
        let mut k: usize = 0;
        proof {
            assert(mid =~= mid.update(
                j as int,
                (mid[j as int].0, received_all(mid[j as int].1, sent@, 0, *ids)),
            ));
            assert(log@ =~= old(log)@ + records.take(0));
        }
        while k < n
            invariant
                self.wf(),
                self.name_text() == old(self).name_text(),
                n == sent@.len(),
                k <= n,
                j < mid.len(),
                self.listing() == mid.update(
                    j as int,
                    (mid[j as int].0, received_all(mid[j as int].1, sent@, k as nat, *ids)),
                ),
                records == records_of(sent@, instant),
                log@ == old(log)@ + records.take(k as int),
                quiet.ids == *ids,
                quiet.linked is None,
            decreases n - k,
        {
            let ghost log_before = log@;
            proof {
                self.lemma_listing();
            }
            self.handle_at(j, TileEntityMsg::Transaction(sent[k].stack), &quiet);
            log.push(
                TransactionRecord {
                    source: sent[k].source,
                    dest: sent[k].dest,
                    stack: sent[k].stack,
                    instant,
                },
            );
            proof {
                assert(self.listing() =~= mid.update(
                    j as int,
                    (mid[j as int].0, received_all(mid[j as int].1, sent@, (k + 1) as nat, *ids)),
                ));
                assert(records.take(k as int + 1) =~= records.take(k as int).push(records[k as int]));
                assert(log@ == log_before.push(records[k as int]));
                assert(log@ =~= old(log)@ + records.take(k as int + 1));
            }
            k = k + 1;
        }
        proof {
            assert(records.take(n as int) =~= records);
        }
    }

    /// Lets the `i`-th tile in ascending order tick: the tile deals with the
    /// tick, the tile that it is linked to gives up what it draws, the tile
    /// that it pushes towards takes in what it pushed, and each stack that
    /// went over is written behind `log`.
    pub fn tick_tile(
        &mut self,
        i: usize,
        scripts: &ScriptTable,
        ids: &DataIds,
        tick_count: u64,
        instant: u64,
        log: &mut Vec<TransactionRecord>,
    )
        requires
            old(self).wf(),
            scripts.wf(),
            i < old(self).listing().len(),
        ensures
            final(self).wf(),
            final(self).name_text() == old(self).name_text(),
            final(self).listing() == tile_stepped(
                old(self).listing(),
                i as int,
                TickEnv { ids: *ids, scripts: scripts@, instant },
            ),
            final(log)@ == old(log)@ + step_records(
                old(self).listing(),
                i as int,
                TickEnv { ids: *ids, scripts: scripts@, instant },
            ),
    {
        let ghost env = TickEnv { ids: *ids, scripts: scripts@, instant };
        let ghost start = self.listing();
        let (dest_index, link_at) = self.neighbours_of(i, ids);
        let outcome = self.tick_own(i, scripts, ids, tick_count, dest_index.is_some(), link_at, Ghost(instant));
        if outcome.withdrawals.len() > 0 {
            match link_at {
                Some(l) => {
                    let quiet = TileContext {
                        ids: *ids,
                        script: None,
                        target_alive: false,
                        linked: None,
                    };
                    self.handle_at(l, TileEntityMsg::Withdraw(outcome.withdrawals), &quiet);
                    proof {
                        assert(self.listing() =~= drawn_stepped(start, i as int, env));
                    }
                },
                None => {},
            }
        }
        assert(self.listing() == drawn_stepped(start, i as int, env));
        match dest_index {
            Some(j) => {
                if outcome.transfers.len() > 0 {
                    self.deliver(j, &outcome.transfers, ids, instant, log);
                } else {
                    assert(log@ =~= old(log)@ + step_records(start, i as int, env));
                }
            },
            None => {
                assert(log@ =~= old(log)@ + step_records(start, i as int, env));
            },
        }
    }

    /// Hands the tick to the `i`-th tile alone, with what the engine knows
    /// about the tiles around it.
    fn tick_own(
        &mut self,
        i: usize,
        scripts: &ScriptTable,
        ids: &DataIds,
        tick_count: u64,
        target_alive: bool,
        link_at: Option<usize>,
        Ghost(instant): Ghost<u64>,
    ) -> (outcome: crate::tile_entity::TickOutcome)
        requires
            old(self).wf(),
            scripts.wf(),
            i < old(self).listing().len(),
            target_alive == crate::map::target_alive(old(self).listing(), i as int, *ids),
            (match link_at {
                Some(l) => Some(l as int),
                None => None,
            }) == link_index(old(self).listing(), i as int, *ids),
            link_at matches Some(l) ==> l < old(self).listing().len(),
        ensures
            final(self).wf(),
            final(self).name_text() == old(self).name_text(),
            final(self).listing() == own_stepped(
                old(self).listing(),
                i as int,
                TickEnv { ids: *ids, scripts: scripts@, instant },
            ),
            outcome.transfers@ == step_transfers(
                old(self).listing(),
                i as int,
                TickEnv { ids: *ids, scripts: scripts@, instant },
            ),
            outcome.withdrawals@ == step_withdrawals(
                old(self).listing(),
                i as int,
                TickEnv { ids: *ids, scripts: scripts@, instant },
            ),
    {
        let ghost env = TickEnv { ids: *ids, scripts: scripts@, instant };
        let ghost start = self.listing();
        proof {
            self.lemma_listing();
        }
        let tile = self.tile_at(i);
        let script = match tile.script_id(ids) {
            Some(id) => scripts.get(id),
            None => None,
        };
        let link_buffer = match link_at {
            Some(l) => Some(self.tile_at(l).buffer(ids)),
            None => None,
        };
        let context = TileContext {
            ids: *ids,
            script,
            target_alive,
            linked: match &link_buffer {
                Some(buffer) => Some(buffer),
                None => None,
            },
        };
        proof {
            assert(crate::tile_entity::script_view(script) == script_for(start[i as int].1, env));
            assert(linked_view(context.linked) == linked_counts(start, i as int, *ids));
        }
        let reply = self.handle_at(i, TileEntityMsg::Tick { tick_count }, &context);
        proof {
            assert(self.listing() =~= own_stepped(start, i as int, env));
        }
        match reply {
            TileEntityReply::Ticked(outcome) => outcome,
            _ => crate::tile_entity::TickOutcome { transfers: Vec::new(), withdrawals: Vec::new() },
        }
    }

    /// Takes the map apart into its tiles, in ascending order of their
    /// coordinates, each marked as removed.
    pub fn stop_all(self) -> (tiles: Vec<TileEntity>)
        requires
            self.wf(),
        ensures
            tiles@.len() == self.listing().len(),
            forall|i: int|
                0 <= i < tiles@.len() ==> (#[trigger] tiles@[i]).wf() && tiles@[i]@ == (TileView {
                    active: false,
                    ..self.listing()[i].1
                }),
    {
        let ghost listing = self.listing();
        let ghost entries = self.entries();
        proof {
            self.lemma_listing();
        }
        let mut rest = self.tiles.into_entries();
        let mut stopped: Vec<TileEntity> = Vec::new();
        // The entries come off the end, so the tiles are gathered last first
        // and turned round afterwards.
        while rest.len() > 0
            invariant
                rest@.len() <= entries.len(),
                rest@ == entries.take(rest@.len() as int),
                tiles_in_place(entries),
                listing == value_views(entries),
                stopped@.len() == entries.len() - rest@.len(),
                forall|k: int|
                    0 <= k < stopped@.len() ==> (#[trigger] stopped@[k]).wf() && stopped@[k]@
                        == (TileView { active: false, ..listing[entries.len() - 1 - k].1 }),
            decreases rest@.len(),
        {
            let ghost n = rest@.len();
            if let Some((_, mut tile)) = rest.pop() {
                assert(entries[n - 1].1.wf());
                tile.tombstone();
                stopped.push(tile);
                proof {
                    assert(rest@ =~= entries.take(n - 1));
                }
            }
        }
        let mut tiles: Vec<TileEntity> = Vec::new();
        let total = stopped.len();
        while stopped.len() > 0
            invariant
                total == entries.len(),
                listing == value_views(entries),
                stopped@.len() <= total,
                tiles@.len() == total - stopped@.len(),
                forall|k: int|
                    0 <= k < stopped@.len() ==> (#[trigger] stopped@[k]).wf() && stopped@[k]@
                        == (TileView { active: false, ..listing[total - 1 - k].1 }),
                forall|i: int|
                    0 <= i < tiles@.len() ==> (#[trigger] tiles@[i]).wf() && tiles@[i]@ == (TileView {
                        active: false,
                        ..listing[i].1
                    }),
            decreases stopped@.len(),
        {
            if let Some(tile) = stopped.pop() {
                tiles.push(tile);
            }
        }
        tiles
    }

    /// Hands `msg` to the `i`-th tile in ascending order.
    pub fn handle_at(&mut self, i: usize, msg: TileEntityMsg, context: &TileContext) -> (reply:
        TileEntityReply)
        requires
            old(self).wf(),
            i < old(self).listing().len(),
            msg matches TileEntityMsg::SetDataValue(_, value) ==> value.wf(),
            msg matches TileEntityMsg::SetData(data) ==> data.wf(),
            context.linked matches Some(inventory) ==> inventory.wf(),
        ensures
            final(self).wf(),
            final(self).name_text() == old(self).name_text(),
            final(self).listing().len() == old(self).listing().len(),
            forall|j: int|
                0 <= j < old(self).listing().len() && j != i ==> final(self).listing()[j] == old(
                    self,
                ).listing()[j],
            final(self).listing()[i as int].0 == old(self).listing()[i as int].0,
            handled(old(self).listing()[i as int].1, msg, *context, final(self).listing()[i as int].1, reply),
    {
        let ghost before = self.entries();
        proof {
            self.lemma_listing();
        }
        let tile = self.tiles.value_at_mut(i);
        let reply = tile.handle(msg, context);
        proof {
            let after = self.entries();
            assert(after[i as int].1.wf());
            assert forall|k: int| 0 <= k < after.len() implies {
                &&& (#[trigger] after[k]).1.wf()
                &&& after[k].1@.coord == after[k].0
                &&& after[k].1@.active
            } by {
                if k != i {
                    assert(after[k] == before[k]);
                }
            }
            assert forall|a: int, b: int| 0 <= a < b < after.len() implies (#[trigger] after[a]).0.key_rank()
                < (#[trigger] after[b]).0.key_rank() by {
                assert(after[a].0 == before[a].0);
                assert(after[b].0 == before[b].0);
            }
        }
        reply
    }
}

} // verus!
