//! The coordinator: it owns the map, advances the world tick by tick, places
//! and removes tiles, keeps the undo history and the record of transfers,
//! and answers what the outside asks.

use crate::coord::TileCoord;
use crate::data::{DataMap, DataView};
use crate::interner::Interned;
use crate::map::{
    tick_records, ticked_listing, visible, MapInfo, MapRenderInfo, RenderContext, TickEnv, TileMap,
    TransactionRecord,
};
use crate::interner::Interner;
use crate::persist::{can_save, save, save_outcome, saved_bytes, saved_in, saved_listing, SaveError};
use crate::registry::Registry;
use crate::script::ScriptTable;
use crate::data::{bool_of, lookup};
use crate::tile_entity::{
    handled, link_toggled, DataIds, TileContext, TileEntity, TileEntityMsg, TileEntityReply, TileView,
};
use vstd::prelude::*;

verus! {

/// The most steps that the undo history keeps; the oldest step leaves when
/// one more comes.
pub const UNDO_CAPACITY: usize = 256;

/// The answer to a tick that was carried out.
#[derive(Clone, Copy, Debug, PartialEq, Eq, Structural)]
pub struct Ticked;

/// What the coordinator tells of itself.
#[derive(Clone, Copy, Debug, PartialEq, Eq, Structural)]
pub struct GameState {
    pub tick_count: u64,
}

/// What a placement did.
#[derive(Clone, Copy, Debug, PartialEq, Eq, Structural)]
pub enum PlaceTileResponse {
    /// A tile was put at the coordinate.
    Placed,
    /// The tile at the coordinate was taken away.
    Removed,
    /// Nothing changed.
    Ignored,
}

/// A message to the coordinator.
pub enum GameMsg {
    /// Advance the world by one tick, at the given instant.
    Tick { instant: u64 },
    /// Stop ticking.
    StopTicking,
    /// Place a tile, or take one away.
    PlaceTile { coord: TileCoord, id: Interned, record: bool, data: Option<DataMap> },
    /// Ask for the type of the tile at a coordinate.
    GetTile(TileCoord),
    /// Ask for the tile at a coordinate.
    GetTileEntity(TileCoord),
    /// Hand a message to the tile at a coordinate.
    SendMsgToTile { coord: TileCoord, msg: TileEntityMsg, instant: u64 },
    /// Move the tiles at some coordinates by an offset.
    MoveTiles { coords: Vec<TileCoord>, offset: TileCoord, record: bool },
    /// Undo the last recorded step.
    Undo,
    /// Ask for a render snapshot.
    RenderInfoRequest { context: RenderContext },
    /// Ask for the recorded transfers.
    GetRecordedTransactions,
    /// Drop the recorded transfers that are no longer shown.
    PruneTransactions { now: u64, window: u64 },
    /// Ask for the summary of the map, and its name.
    GetMapInfo { save_time: u64 },
    /// Ask for the contents of the file that the map is saved in.
    SaveMap { save_time: u64 },
    /// Put another map in place of the current one.
    LoadMap(TileMap),
    /// Take the world's own data out.
    TakeDataMap,
    /// Put the world's own data back.
    SetDataMap(DataMap),
}

/// What the coordinator answers.
pub enum GameReply {
    /// The message was a notification and has been dealt with.
    Done,
    /// The tick was carried out.
    Ticked(Ticked),
    /// What the placement did.
    Placed(PlaceTileResponse),
    /// The type of the tile asked for.
    Tile(Option<Interned>),
    /// A copy of the tile asked for.
    TileEntity(Option<TileEntity>),
    /// What the tile answered.
    FromTile(TileEntityReply),
    /// Whether there was a step to undo.
    Undone(bool),
    /// The render snapshot.
    RenderInfo(MapRenderInfo),
    /// A copy of the recorded transfers.
    Transactions(Vec<TransactionRecord>),
    /// The summary of the map, and its name.
    Info(MapInfo, String),
    /// The contents of the file that the map is saved in, with the summary
    /// of the map; or why the map could not be saved.
    Saved(Result<(Vec<u8>, MapInfo), SaveError>),
    /// The tiles of the map that was replaced, stopped.
    Stopped(Vec<TileEntity>),
    /// The world's own data.
    Data(DataMap),
}

/// A tick took longer than allowed.
#[derive(Clone, Copy, Debug, PartialEq, Eq, Structural)]
pub struct TickOverrun {
    pub elapsed: u64,
    pub maximum: u64,
}

/// One step of the undo history: a coordinate, and the tile that stood there
/// before the step, if any.
pub struct UndoView {
    pub coord: TileCoord,
    pub previous: Option<TileView>,
}

/// What the coordinator stands for.
pub struct GameView {
    pub tick_count: u64,
    pub map: Map<TileCoord, TileView>,
    pub history: Seq<UndoView>,
    pub transactions: Seq<TransactionRecord>,
    pub data: Map<Interned, DataView>,
    pub ticking: bool,
}

/// Whether each tile of `map` is active and stands where it is filed.
pub open spec fn in_place(map: Map<TileCoord, TileView>) -> bool {
    forall|coord: TileCoord|
        map.contains_key(coord) ==> (#[trigger] map[coord]).coord == coord && map[coord].active
}

/// What placing a tile of type `id` at `coord` does; `none` is the type that
/// stands for no tile.
pub open spec fn place_response(
    map: Map<TileCoord, TileView>,
    coord: TileCoord,
    id: Interned,
    none: Interned,
) -> PlaceTileResponse {
    if id == none {
        if map.contains_key(coord) {
            PlaceTileResponse::Removed
        } else {
            PlaceTileResponse::Ignored
        }
    } else if map.contains_key(coord) && map[coord].id == id {
        PlaceTileResponse::Ignored
    } else {
        PlaceTileResponse::Placed
    }
}

/// A tile as it is when it has just been placed.
pub open spec fn fresh_tile(coord: TileCoord, id: Interned, data: Map<Interned, DataView>) -> TileView {
    TileView { id, coord, modifier: 0, data, active: true }
}

/// `map` after a tile of type `id` was placed at `coord`.
pub open spec fn placed_map(
    map: Map<TileCoord, TileView>,
    coord: TileCoord,
    id: Interned,
    none: Interned,
    data: Map<Interned, DataView>,
) -> Map<TileCoord, TileView> {
    match place_response(map, coord, id, none) {
        PlaceTileResponse::Placed => map.insert(coord, fresh_tile(coord, id, data)),
        PlaceTileResponse::Removed => map.remove(coord),
        PlaceTileResponse::Ignored => map,
    }
}

/// The step that undoes a change at `coord` of `map`.
pub open spec fn undo_step(map: Map<TileCoord, TileView>, coord: TileCoord) -> UndoView {
    UndoView {
        coord,
        previous: if map.contains_key(coord) {
            Some(TileView { active: false, ..map[coord] })
        } else {
            None
        },
    }
}

/// `history` with `step` behind it; a full history loses its oldest step.
pub open spec fn pushed(history: Seq<UndoView>, step: UndoView) -> Seq<UndoView> {
    if history.len() >= UNDO_CAPACITY {
        history.subrange(1, history.len() as int).push(step)
    } else {
        history.push(step)
    }
}

/// `history` after a tile of type `id` was placed at `coord` of `map`: a
/// recorded placement that changed the map leaves the step that undoes it.
pub open spec fn placed_history(
    history: Seq<UndoView>,
    map: Map<TileCoord, TileView>,
    coord: TileCoord,
    id: Interned,
    none: Interned,
    record: bool,
) -> Seq<UndoView> {
    if record && place_response(map, coord, id, none) != PlaceTileResponse::Ignored {
        pushed(history, undo_step(map, coord))
    } else {
        history
    }
}

/// `map` after `step` was undone: the tile that stood at the coordinate
/// stands there again, or none does.
pub open spec fn step_undone(map: Map<TileCoord, TileView>, step: UndoView) -> Map<
    TileCoord,
    TileView,
> {
    match step.previous {
        Some(tile) => map.insert(step.coord, TileView { coord: step.coord, active: true, ..tile }),
        None => map.remove(step.coord),
    }
}

/// `map` after the last step of `history` was undone.
pub open spec fn undone_map(map: Map<TileCoord, TileView>, history: Seq<UndoView>) -> Map<
    TileCoord,
    TileView,
> {
    if history.len() == 0 {
        map
    } else {
        step_undone(map, history.last())
    }
}

/// `history` without its last step.
pub open spec fn undone_history(history: Seq<UndoView>) -> Seq<UndoView> {
    if history.len() == 0 {
        history
    } else {
        history.drop_last()
    }
}

/// The tick count after one more tick: it wraps at the end of its range.
pub open spec fn next_tick(tick_count: u64) -> u64 {
    if tick_count == u64::MAX {
        0
    } else {
        (tick_count + 1) as u64
    }
}

/// The tick count after `n` more ticks.
pub open spec fn after_ticks(tick_count: u64, n: nat) -> u64
    decreases n,
{
    if n == 0 {
        tick_count
    } else {
        next_tick(after_ticks(tick_count, (n - 1) as nat))
    }
}

/// What the check of a tick's duration gives: a warning where the tick took
/// longer than the limit, and nothing otherwise.
pub open spec fn overrun(elapsed: u64, limit: u64) -> Option<TickOverrun> {
    if elapsed > limit {
        Some(TickOverrun { elapsed, maximum: limit })
    } else {
        None
    }
}

/// Whether the time that `record` is shown for has not yet passed at `now`.
pub open spec fn still_shown(record: TransactionRecord, now: u64, window: u64) -> bool {
    now < record.instant || now - record.instant < window
}

/// The records of `records` that are still shown at `now`, in their order.
pub open spec fn shown(records: Seq<TransactionRecord>, now: u64, window: u64) -> Seq<
    TransactionRecord,
>
    decreases records.len(),
{
    if records.len() == 0 {
        Seq::empty()
    } else {
        let before = shown(records.drop_last(), now, window);
        if still_shown(records.last(), now, window) {
            before.push(records.last())
        } else {
            before
        }
    }
}

/// A placement: where, what, and with which data.
pub struct PlaceOp {
    pub coord: TileCoord,
    pub id: Interned,
    pub data: Map<Interned, DataView>,
}

/// Map and history after each placement of `ops` was carried out in turn and
/// recorded.
pub open spec fn place_all(
    map: Map<TileCoord, TileView>,
    history: Seq<UndoView>,
    none: Interned,
    ops: Seq<PlaceOp>,
) -> (Map<TileCoord, TileView>, Seq<UndoView>)
    decreases ops.len(),
{
    if ops.len() == 0 {
        (map, history)
    } else {
        let before = place_all(map, history, none, ops.drop_last());
        let op = ops.last();
        (
            placed_map(before.0, op.coord, op.id, none, op.data),
            placed_history(before.1, before.0, op.coord, op.id, none, true),
        )
    }
}

/// Map and history after `n` steps were undone.
pub open spec fn undo_times(map: Map<TileCoord, TileView>, history: Seq<UndoView>, n: nat) -> (
    Map<TileCoord, TileView>,
    Seq<UndoView>,
)
    decreases n,
{
    if n == 0 {
        (map, history)
    } else {
        undo_times(undone_map(map, history), undone_history(history), (n - 1) as nat)
    }
}

/// What lifting tiles off the map has come to: the map without them, the
/// history with the steps that undo the lifting, and the tiles that were
/// lifted, in the order in which they were.
pub struct Lifted {
    pub map: Map<TileCoord, TileView>,
    pub history: Seq<UndoView>,
    pub tiles: Seq<TileView>,
}

/// `state` after the tile at `coord` was lifted; nothing changes where no
/// tile stands.
pub open spec fn lift_step(state: Lifted, coord: TileCoord, record: bool) -> Lifted {
    if state.map.contains_key(coord) {
        Lifted {
            map: state.map.remove(coord),
            history: if record {
                pushed(state.history, undo_step(state.map, coord))
            } else {
                state.history
            },
            tiles: state.tiles.push(TileView { active: false, ..state.map[coord] }),
        }
    } else {
        state
    }
}

/// Map and history after the tiles at the first `n` of `coords` were lifted,
/// in order.
pub open spec fn lifted(
    map: Map<TileCoord, TileView>,
    history: Seq<UndoView>,
    coords: Seq<TileCoord>,
    record: bool,
    n: nat,
) -> Lifted
    decreases n,
{
    if n == 0 {
        Lifted { map, history, tiles: Seq::empty() }
    } else {
        lift_step(lifted(map, history, coords, record, (n - 1) as nat), coords[n - 1], record)
    }
}

/// Where a tile that stood at `coord` is set down: `offset` away, or where it
/// stood if that is no coordinate.
pub open spec fn set_down_at(coord: TileCoord, offset: TileCoord) -> TileCoord {
    if coord.can_add(offset) {
        TileCoord { q: (coord.q + offset.q) as i32, r: (coord.r + offset.r) as i32 }
    } else {
        coord
    }
}

/// Map and history after the first `n` of `tiles` were set down `offset`
/// away from where they stood, in order; a tile that stands where one is set
/// down gives way to it.
pub open spec fn set_down(
    map: Map<TileCoord, TileView>,
    history: Seq<UndoView>,
    tiles: Seq<TileView>,
    offset: TileCoord,
    record: bool,
    n: nat,
) -> (Map<TileCoord, TileView>, Seq<UndoView>)
    decreases n,
{
    if n == 0 {
        (map, history)
    } else {
        let before = set_down(map, history, tiles, offset, record, (n - 1) as nat);
        let tile = tiles[n - 1];
        let dest = set_down_at(tile.coord, offset);
        (
            before.0.insert(dest, TileView { coord: dest, active: true, ..tile }),
            if record {
                pushed(before.1, undo_step(before.0, dest))
            } else {
                before.1
            },
        )
    }
}

/// Map and history after the tiles at `coords` were moved by `offset`: all
/// of them are lifted first, and then set down.
pub open spec fn moved(
    map: Map<TileCoord, TileView>,
    history: Seq<UndoView>,
    coords: Seq<TileCoord>,
    offset: TileCoord,
    record: bool,
) -> (Map<TileCoord, TileView>, Seq<UndoView>) {
    let up = lifted(map, history, coords, record, coords.len());
    set_down(up.map, up.history, up.tiles, offset, record, up.tiles.len())
}

/// Whether tiles of the type of the tile at `coord` can be linked.
pub open spec fn linkable(
    map: Map<TileCoord, TileView>,
    coord: TileCoord,
    registry: &Registry,
) -> bool {
    &&& map.contains_key(coord)
    &&& registry.tiles().contains_key(map[coord].id)
    &&& (match lookup(registry.tiles()[map[coord].id].data, registry.data_ids().linked) {
        Some(value) => bool_of(value) == Some(true),
        None => false,
    })
}

/// One kept step of the undo history.
struct UndoEntry {
    coord: TileCoord,
    previous: Option<TileEntity>,
}

impl UndoEntry {
    spec fn wf(&self) -> bool {
        self.previous matches Some(tile) ==> tile.wf() && !tile@.active
    }

    spec fn view(&self) -> UndoView {
        UndoView {
            coord: self.coord,
            previous: match self.previous {
                Some(tile) => Some(tile@),
                None => None,
            },
        }
    }
}

/// The coordinator of one world.
pub struct Game {
    tick_count: u64,
    map: TileMap,
    history: Vec<UndoEntry>,
    transactions: Vec<TransactionRecord>,
    data: DataMap,
    ticking: bool,
    none: Interned,
    ids: DataIds,
    max_tick_interval: u64,
}

impl View for Game {
    type V = GameView;

    closed spec fn view(&self) -> GameView {
        GameView {
            tick_count: self.tick_count,
            map: self.map@,
            history: Seq::new(self.history@.len(), |i: int| self.history@[i]@),
            transactions: self.transactions@,
            data: self.data@,
            ticking: self.ticking,
        }
    }
}

impl Game {
    /// The map, the world's data and the kept steps are well formed, and the
    /// history is within its capacity.
    pub closed spec fn wf(&self) -> bool {
        &&& self.map.wf()
        &&& self.data.wf()
        &&& self.history@.len() <= UNDO_CAPACITY
        &&& forall|i: int| 0 <= i < self.history@.len() ==> (#[trigger] self.history@[i]).wf()
    }

    /// The tiles and what they stand for, in ascending order of their
    /// coordinates.
    pub closed spec fn listing(&self) -> Seq<(TileCoord, TileView)> {
        self.map.listing()
    }

    /// The type that stands for no tile.
    pub closed spec fn none_id(&self) -> Interned {
        self.none
    }

    /// The keys of the data that the engine reads.
    pub closed spec fn data_ids(&self) -> DataIds {
        self.ids
    }

    /// The longest that a tick may take.
    pub closed spec fn tick_limit(&self) -> u64 {
        self.max_tick_interval
    }

    /// The name of the map.
    pub closed spec fn map_name(&self) -> Seq<char> {
        self.map.name_text()
    }

    /// What a well-formed coordinator holds: the map is what its listing
    /// stands for, the listing ascends, every tile is active and stands
    /// where it is filed, and the history is within its capacity.
    pub proof fn lemma_wf(&self)
        requires
            self.wf(),
        ensures
            self@.map == crate::ordered_map::entries_map(self.listing()),
            crate::ordered_map::ascending(self.listing()),
            in_place(self@.map),
            self@.history.len() <= UNDO_CAPACITY,
    {
        self.map.lemma_listing();
        let listing = self.listing();
        assert forall|coord: TileCoord| self@.map.contains_key(coord) implies (
        #[trigger] self@.map[coord]).coord == coord && self@.map[coord].active by {
            let i = crate::ordered_map::position(listing, coord);
            crate::ordered_map::lemma_entry_in_map(listing, i);
        }
    }

    /// A coordinator over `map`, at tick zero, ticking, with an empty history.
    pub fn new(map: TileMap, none: Interned, ids: DataIds, max_tick_interval: u64) -> (game: Game)
        requires
            map.wf(),
        ensures
            game.wf(),
            game@ == (GameView {
                tick_count: 0,
                map: map@,
                history: Seq::empty(),
                transactions: Seq::empty(),
                data: Map::empty(),
                ticking: true,
            }),
            game.listing() == map.listing(),
            game.none_id() == none,
            game.data_ids() == ids,
            game.tick_limit() == max_tick_interval,
            game.map_name() == map.name_text(),
    {
        let game = Game {
            tick_count: 0,
            map,
            history: Vec::new(),
            transactions: Vec::new(),
            data: DataMap::new(),
            ticking: true,
            none,
            ids,
            max_tick_interval,
        };
        assert(game@.history =~= Seq::empty());
        game
    }

    /// The tick count.
    pub fn state(&self) -> (state: GameState)
        ensures
            state.tick_count == self@.tick_count,
    {
        GameState { tick_count: self.tick_count }
    }

    /// The map.
    pub fn map(&self) -> (map: &TileMap)
        requires
            self.wf(),
        ensures
            map.wf(),
            map@ == self@.map,
            map.listing() == self.listing(),
            map.name_text() == self.map_name(),
    {
        &self.map
    }

    /// The type of the tile at `coord`.
    pub fn get_tile(&self, coord: TileCoord) -> (out: Option<Interned>)
        requires
            self.wf(),
        ensures
            out is Some <==> self@.map.contains_key(coord),
            out matches Some(id) ==> id == self@.map[coord].id,
    {
        self.map.get_id(coord)
    }

    /// The tile at `coord`.
    pub fn get_tile_entity(&self, coord: TileCoord) -> (out: Option<&TileEntity>)
        requires
            self.wf(),
        ensures
            out is Some <==> self@.map.contains_key(coord),
            out matches Some(tile) ==> tile.wf() && tile@ == self@.map[coord],
    {
        self.map.get(coord)
    }

    /// Puts `entry` behind the history; a full history loses its oldest step.
    fn remember(&mut self, entry: UndoEntry)
        requires
            old(self).wf(),
            entry.wf(),
        ensures
            final(self).wf(),
            final(self)@ == (GameView { history: pushed(old(self)@.history, entry@), ..old(self)@ }),
            final(self).listing() == old(self).listing(),
            final(self).none_id() == old(self).none_id(),
            final(self).data_ids() == old(self).data_ids(),
            final(self).tick_limit() == old(self).tick_limit(),
            final(self).map_name() == old(self).map_name(),
    {
        if self.history.len() >= UNDO_CAPACITY {
            self.history.remove(0);
        }
        self.history.push(entry);
        assert(self@.history =~= pushed(old(self)@.history, entry@));
    }

    /// Places a tile of type `id` at `coord`, with `data` or with no data. A
    /// tile that stands there is replaced. The type that stands for no tile
    /// takes the tile away. Placing the type that already stands there, or
    /// taking away where nothing stands, changes nothing. With `record`, a
    /// placement that changed the map can be undone.
    pub fn place_tile(&mut self, coord: TileCoord, id: Interned, record: bool, data: Option<DataMap>) -> (
        response: PlaceTileResponse
    )
        requires
            old(self).wf(),
            data matches Some(d) ==> d.wf(),
        ensures
            final(self).wf(),
            response == place_response(old(self)@.map, coord, id, old(self).none_id()),
            final(self)@ == (GameView {
                map: placed_map(
                    old(self)@.map,
                    coord,
                    id,
                    old(self).none_id(),
                    match data {
                        Some(d) => d@,
                        None => Map::empty(),
                    },
                ),
                history: placed_history(
                    old(self)@.history,
                    old(self)@.map,
                    coord,
                    id,
                    old(self).none_id(),
                    record,
                ),
                ..old(self)@
            }),
            final(self).none_id() == old(self).none_id(),
            final(self).data_ids() == old(self).data_ids(),
            final(self).tick_limit() == old(self).tick_limit(),
            final(self).map_name() == old(self).map_name(),
    {
        let existing = self.map.get_id(coord);
        if id == self.none {
            if existing.is_none() {
                return PlaceTileResponse::Ignored;
            }
            let previous = self.map.remove(coord);
            if record {
                self.remember(UndoEntry { coord, previous });
            }
            PlaceTileResponse::Removed
        } else {
            let same = match existing {
                Some(old_id) => old_id == id,
                None => false,
            };
            if same {
                return PlaceTileResponse::Ignored;
            }
            let data = match data {
                Some(d) => d,
                None => DataMap::new(),
            };
            let previous = self.map.insert(coord, id, 0, data);
            if record {
                self.remember(UndoEntry { coord, previous });
            }
            PlaceTileResponse::Placed
        }
    }

    /// Undoes the last recorded step: the tile that stood at its coordinate
    /// before stands there again, or none does. Says whether there was a step
    /// to undo; with an empty history nothing changes.
    pub fn undo(&mut self) -> (undone: bool)
        requires
            old(self).wf(),
        ensures
            final(self).wf(),
            undone == (old(self)@.history.len() > 0),
            !undone ==> final(self).listing() == old(self).listing(),
            final(self)@ == (GameView {
                map: undone_map(old(self)@.map, old(self)@.history),
                history: undone_history(old(self)@.history),
                ..old(self)@
            }),
            final(self).none_id() == old(self).none_id(),
            final(self).data_ids() == old(self).data_ids(),
            final(self).tick_limit() == old(self).tick_limit(),
            final(self).map_name() == old(self).map_name(),
    {
        match self.history.pop() {
            None => {
                assert(self@.history =~= old(self)@.history);
                false
            },
            Some(entry) => {
                assert(entry == old(self).history@[old(self).history@.len() - 1]);
                assert(entry.wf());
                match entry.previous {
                    Some(tile) => {
                        let (id, modifier, data) = tile.into_parts();
                        self.map.insert(entry.coord, id, modifier, data);
                    },
                    None => {
                        self.map.remove(entry.coord);
                    },
                }
                assert(self@.history =~= undone_history(old(self)@.history));
                true
            },
        }
    }

    /// Advances the world by one tick: every tile ticks, in ascending order
    /// of the coordinates, each transfer is recorded with `instant`, and the
    /// tick count goes up by one, wrapping at the end of its range.
    pub fn tick(&mut self, scripts: &ScriptTable, instant: u64) -> (out: Ticked)
        requires
            old(self).wf(),
            scripts.wf(),
        ensures
            final(self).wf(),
            final(self).listing() == ticked_listing(
                old(self).listing(),
                TickEnv { ids: old(self).data_ids(), scripts: scripts@, instant },
                old(self).listing().len(),
            ),
            final(self)@ == (GameView {
                tick_count: next_tick(old(self)@.tick_count),
                map: crate::ordered_map::entries_map(final(self).listing()),
                transactions: old(self)@.transactions + tick_records(
                    old(self).listing(),
                    TickEnv { ids: old(self).data_ids(), scripts: scripts@, instant },
                    old(self).listing().len(),
                ),
                ..old(self)@
            }),
            final(self).none_id() == old(self).none_id(),
            final(self).data_ids() == old(self).data_ids(),
            final(self).tick_limit() == old(self).tick_limit(),
            final(self).map_name() == old(self).map_name(),
    {
        let ghost env = TickEnv { ids: self.ids, scripts: scripts@, instant };
        let ghost start = self.map.listing();
        let n = self.map.len();
        let ids = self.ids;
        let tick_count = self.tick_count;
        let mut i: usize = 0;
        while i < n
            invariant
                scripts.wf(),
                self.map.wf(),
                self.data.wf(),
                self.history == old(self).history,
                self.data == old(self).data,
                self.ticking == old(self).ticking,
                self.none == old(self).none,
                self.ids == old(self).ids,
                self.tick_count == old(self).tick_count,
                self.max_tick_interval == old(self).max_tick_interval,
                self.map.name_text() == old(self).map.name_text(),
                ids == self.ids,
                env == (TickEnv { ids, scripts: scripts@, instant }),
                i <= n,
                n == start.len(),
                self.map.listing().len() == n,
                self.map.listing() == ticked_listing(start, env, i as nat),
                self.transactions@ == old(self).transactions@ + tick_records(start, env, i as nat),
            decreases n - i,
        {
            self.map.tick_tile(i, scripts, &ids, tick_count, instant, &mut self.transactions);
            proof {
                assert(self.transactions@ =~= old(self).transactions@ + tick_records(
                    start,
                    env,
                    (i + 1) as nat,
                ));
            }
            i = i + 1;
        }
        self.tick_count = if self.tick_count == u64::MAX {
            0
        } else {
            self.tick_count + 1
        };
        proof {
            self.map.lemma_listing();
            assert(self@.history =~= old(self)@.history);
        }
        Ticked
    }

    /// Holds the time that a tick took against the limit: a warning where the
    /// tick took longer, and nothing otherwise. The coordinator stays as it
    /// is.
    pub fn check_tick_time(&self, elapsed: u64) -> (out: Option<TickOverrun>)
        ensures
            out == overrun(elapsed, self.tick_limit()),
    {
        if elapsed > self.max_tick_interval {
            Some(TickOverrun { elapsed, maximum: self.max_tick_interval })
        } else {
            None
        }
    }

    /// Whether the timer that sends the ticks is to run.
    pub fn is_ticking(&self) -> (out: bool)
        ensures
            out == self@.ticking,
    {
        self.ticking
    }

    /// Stops ticking: the timer that sends the ticks is to run no longer. A
    /// tick that still arrives is carried out like any other.
    pub fn stop_ticking(&mut self)
        requires
            old(self).wf(),
        ensures
            final(self).wf(),
            final(self)@ == (GameView { ticking: false, ..old(self)@ }),
            final(self).listing() == old(self).listing(),
            final(self).none_id() == old(self).none_id(),
            final(self).data_ids() == old(self).data_ids(),
            final(self).tick_limit() == old(self).tick_limit(),
            final(self).map_name() == old(self).map_name(),
    {
        self.ticking = false;
        assert(self@.history =~= old(self)@.history);
    }

    /// Hands `msg` to the tile at `coord` and gives back its answer; where no
    /// tile stands, the answer is that the tile is absent, and nothing
    /// changes. A tick handed over this way is carried out as in `tick`, for
    /// that tile alone, and answered as done.
    pub fn send_msg_to_tile(
        &mut self,
        coord: TileCoord,
        msg: TileEntityMsg,
        scripts: &ScriptTable,
        instant: u64,
    ) -> (reply: TileEntityReply)
        requires
            old(self).wf(),
            scripts.wf(),
            msg matches TileEntityMsg::SetDataValue(_, value) ==> value.wf(),
            msg matches TileEntityMsg::SetData(data) ==> data.wf(),
        ensures
            final(self).wf(),
            !old(self)@.map.contains_key(coord) ==> reply is Absent && final(self)@ == old(self)@
                && final(self).listing() == old(self).listing(),
            old(self)@.map.contains_key(coord) ==> {
                let i = crate::ordered_map::position(old(self).listing(), coord);
                let env = TickEnv { ids: old(self).data_ids(), scripts: scripts@, instant };
                &&& 0 <= i < old(self).listing().len()
                &&& old(self).listing()[i].0 == coord
                &&& final(self)@ == (GameView {
                    map: crate::ordered_map::entries_map(final(self).listing()),
                    transactions: final(self)@.transactions,
                    ..old(self)@
                })
                &&& if msg is Tick {
                    &&& reply is Done
                    &&& final(self).listing() == crate::map::tile_stepped(old(self).listing(), i, env)
                    &&& final(self)@.transactions == old(self)@.transactions
                        + crate::map::step_records(old(self).listing(), i, env)
                } else {
                    &&& final(self)@.transactions == old(self)@.transactions
                    &&& final(self).listing().len() == old(self).listing().len()
                    &&& forall|j: int|
                        0 <= j < old(self).listing().len() && j != i ==> final(self).listing()[j]
                            == old(self).listing()[j]
                    &&& final(self).listing()[i].0 == coord
                    &&& handled(
                        old(self).listing()[i].1,
                        msg,
                        TileContext { ids: old(self).data_ids(), script: None, target_alive: false, linked: None },
                        final(self).listing()[i].1,
                        reply,
                    )
                }
            },
            final(self).none_id() == old(self).none_id(),
            final(self).data_ids() == old(self).data_ids(),
            final(self).tick_limit() == old(self).tick_limit(),
            final(self).map_name() == old(self).map_name(),
    {
        proof {
            self.map.lemma_listing();
        }
        match self.map.index_of(coord) {
            None => TileEntityReply::Absent,
            Some(i) => {
                proof {
                    crate::ordered_map::lemma_entry_in_map(self.map.listing(), i as int);
                }
                let ids = self.ids;
                let reply = match msg {
                    TileEntityMsg::Tick { tick_count } => {
                        self.map.tick_tile(
                            i,
                            scripts,
                            &ids,
                            tick_count,
                            instant,
                            &mut self.transactions,
                        );
                        TileEntityReply::Done
                    },
                    other => {
                        let context = TileContext { ids, script: None, target_alive: false, linked: None };
                        self.map.handle_at(i, other, &context)
                    },
                };
                proof {
                    self.map.lemma_listing();
                    assert(self@.history =~= old(self)@.history);
                }
                reply
            },
        }
    }

    /// The tiles within the window of `context`, in ascending order of their
    /// coordinates.
    pub fn render_info(&self, context: &RenderContext) -> (info: MapRenderInfo)
        requires
            self.wf(),
        ensures
            info.instances@ == visible(self.listing(), context.culling_range, context.ids),
    {
        self.map.render_info(context)
    }

    /// The transfers recorded so far, oldest first.
    pub fn recorded_transactions(&self) -> (records: &Vec<TransactionRecord>)
        ensures
            records@ == self@.transactions,
    {
        &self.transactions
    }

    /// Drops the records whose time of being shown, `window` from their
    /// instant, has passed at `now`.
    pub fn prune_transactions(&mut self, now: u64, window: u64)
        requires
            old(self).wf(),
        ensures
            final(self).wf(),
            final(self)@ == (GameView {
                transactions: shown(old(self)@.transactions, now, window),
                ..old(self)@
            }),
            final(self).listing() == old(self).listing(),
            final(self).none_id() == old(self).none_id(),
            final(self).data_ids() == old(self).data_ids(),
            final(self).tick_limit() == old(self).tick_limit(),
            final(self).map_name() == old(self).map_name(),
    {
        let mut kept: Vec<TransactionRecord> = Vec::new();
        let n = self.transactions.len();
        let mut i: usize = 0;
        while i < n
            invariant
                n == self.transactions@.len(),
                i <= n,
                kept@ == shown(self.transactions@.take(i as int), now, window),
            decreases n - i,
        {
            proof {
                assert(self.transactions@.take(i as int + 1).drop_last() =~= self.transactions@.take(
                    i as int,
                ));
            }
            let record = self.transactions[i];
            if now < record.instant || now - record.instant < window {
                kept.push(record);
            }
            i = i + 1;
        }
        proof {
            assert(self.transactions@.take(n as int) =~= self.transactions@);
        }
        self.transactions = kept;
        assert(self@.history =~= old(self)@.history);
    }

    /// Summary of the map as saved at `save_time`.
    pub fn map_info(&self, save_time: u64) -> (info: MapInfo)
        ensures
            info.tile_count == self.listing().len(),
            info.save_time == save_time,
    {
        self.map.info(save_time)
    }

    /// Puts `map` in place of the current map. The tiles of the old map are
    /// stopped and handed out, in ascending order of their coordinates. The
    /// history and the recorded transfers, which speak of the old map, are
    /// dropped.
    pub fn load_map(&mut self, map: TileMap) -> (stopped: Vec<TileEntity>)
        requires
            old(self).wf(),
            map.wf(),
        ensures
            final(self).wf(),
            stopped@.len() == old(self).listing().len(),
            forall|i: int|
                0 <= i < stopped@.len() ==> (#[trigger] stopped@[i]).wf() && stopped@[i]@
                    == (TileView { active: false, ..old(self).listing()[i].1 }),
            final(self)@ == (GameView {
                map: map@,
                history: Seq::empty(),
                transactions: Seq::empty(),
                ..old(self)@
            }),
            final(self).listing() == map.listing(),
            final(self).map_name() == map.name_text(),
            final(self).none_id() == old(self).none_id(),
            final(self).data_ids() == old(self).data_ids(),
            final(self).tick_limit() == old(self).tick_limit(),
    {
        let mut map = map;
        core::mem::swap(&mut self.map, &mut map);
        self.history = Vec::new();
        self.transactions = Vec::new();
        assert(self@.history =~= Seq::empty());
        map.stop_all()
    }

    /// Shuts the world down: ticking stops, the map is saved as at
    /// `save_time`, and every tile is stopped. Gives the contents of the file
    /// that the map is saved in, or why it could not be saved, and the
    /// stopped tiles in ascending order of their coordinates.
    pub fn shutdown(self, interner: &Interner, save_time: u64) -> (out: (
        Result<(Vec<u8>, MapInfo), SaveError>,
        Vec<TileEntity>,
    ))
        requires
            self.wf(),
            interner.wf(),
        ensures
            out.0 is Ok <==> can_save(self.listing(), interner.texts(), self.data_ids(), save_time),
            saved_bytes(out.0) == save_outcome(
                self.listing(),
                interner.texts(),
                self.data_ids(),
                save_time,
            ),
            out.0 matches Ok((file, info)) ==> {
                &&& saved_in(file@) == Some(
                    (save_time, saved_listing(self.listing(), interner.texts(), self.data_ids())),
                )
                &&& info.tile_count == self.listing().len()
                &&& info.save_time == save_time
            },
            out.1@.len() == self.listing().len(),
            forall|i: int|
                0 <= i < out.1@.len() ==> (#[trigger] out.1@[i]).wf() && out.1@[i]@ == (TileView {
                    active: false,
                    ..self.listing()[i].1
                }),
    {
        let mut game = self;
        game.stop_ticking();
        let saved = game.save_map(interner, save_time);
        let stopped = game.map.stop_all();
        (saved, stopped)
    }

    /// Takes the world's own data out, leaving none.
    pub fn take_data_map(&mut self) -> (data: DataMap)
        requires
            old(self).wf(),
        ensures
            final(self).wf(),
            data.wf(),
            data@ == old(self)@.data,
            final(self)@ == (GameView { data: Map::empty(), ..old(self)@ }),
            final(self).listing() == old(self).listing(),
            final(self).none_id() == old(self).none_id(),
            final(self).data_ids() == old(self).data_ids(),
            final(self).tick_limit() == old(self).tick_limit(),
            final(self).map_name() == old(self).map_name(),
    {
        let mut data = DataMap::new();
        core::mem::swap(&mut self.data, &mut data);
        assert(self@.history =~= old(self)@.history);
        data
    }

    /// Puts `data` in place of the world's own data.
    pub fn set_data_map(&mut self, data: DataMap)
        requires
            old(self).wf(),
            data.wf(),
        ensures
            final(self).wf(),
            final(self)@ == (GameView { data: data@, ..old(self)@ }),
            final(self).listing() == old(self).listing(),
            final(self).none_id() == old(self).none_id(),
            final(self).data_ids() == old(self).data_ids(),
            final(self).tick_limit() == old(self).tick_limit(),
            final(self).map_name() == old(self).map_name(),
    {
        self.data = data;
        assert(self@.history =~= old(self)@.history);
    }

    /// Moves the tiles at `coords` by `offset`: all of them are lifted off
    /// the map first, in the order of `coords`, and then set down `offset`
    /// away from where they stood, in the same order. A tile that stands
    /// where one is set down gives way to it; a tile whose new place is no
    /// coordinate is set down where it stood. With `record`, every lifting
    /// and every setting down is a step that can be undone.
    pub fn move_tiles(&mut self, coords: &Vec<TileCoord>, offset: TileCoord, record: bool)
        requires
            old(self).wf(),
        ensures
            final(self).wf(),
            final(self)@ == (GameView {
                map: moved(old(self)@.map, old(self)@.history, coords@, offset, record).0,
                history: moved(old(self)@.map, old(self)@.history, coords@, offset, record).1,
                ..old(self)@
            }),
            final(self).none_id() == old(self).none_id(),
            final(self).data_ids() == old(self).data_ids(),
            final(self).tick_limit() == old(self).tick_limit(),
            final(self).map_name() == old(self).map_name(),
    {
        let mut tiles: Vec<TileEntity> = Vec::new();
        let n = coords.len();
        let mut i: usize = 0;
        while i < n
            invariant
                n == coords@.len(),
                i <= n,
                self.wf(),
                forall|k: int| 0 <= k < tiles@.len() ==> (#[trigger] tiles@[k]).wf(),
                self@ == (GameView {
                    map: lifted(old(self)@.map, old(self)@.history, coords@, record, i as nat).map,
                    history: lifted(
                        old(self)@.map,
                        old(self)@.history,
                        coords@,
                        record,
                        i as nat,
                    ).history,
                    ..old(self)@
                }),
                Seq::new(tiles@.len(), |k: int| tiles@[k]@) == lifted(
                    old(self)@.map,
                    old(self)@.history,
                    coords@,
                    record,
                    i as nat,
                ).tiles,
                self.none_id() == old(self).none_id(),
                self.data_ids() == old(self).data_ids(),
                self.tick_limit() == old(self).tick_limit(),
                self.map_name() == old(self).map_name(),
            decreases n - i,
        {
            let ghost seen = Seq::new(tiles@.len(), |k: int| tiles@[k]@);
            let ghost history = self@.history;
            let ghost map = self@.map;
            match self.map.remove(coords[i]) {
                Some(tile) => {
                    if record {
                        let kept = tile.duplicate();
                        assert(self@.history =~= history);
                        self.remember(UndoEntry { coord: coords[i], previous: Some(kept) });
                    }
                    tiles.push(tile);
                    proof {
                        assert(Seq::new(tiles@.len(), |k: int| tiles@[k]@) =~= seen.push(tile@));
                        if !record {
                            assert(self@.history =~= history);
                        }
                    }
                },
                None => {
                    assert(self@.history =~= history);
                    assert(self@.map =~= map);
                },
            }
            i = i + 1;
        }
        let ghost up = lifted(old(self)@.map, old(self)@.history, coords@, record, n as nat);
        let m = tiles.len();
        let mut j: usize = m;
        // The tiles are taken off the end of the list, so the list is walked
        // from its end and the tiles are set down from its start.
        let mut rest: Vec<TileEntity> = Vec::new();
        while j > 0
            invariant
                j <= m,
                m == up.tiles.len(),
                tiles@.len() == j,
                rest@.len() == m - j,
                forall|k: int| 0 <= k < tiles@.len() ==> (#[trigger] tiles@[k]).wf(),
                forall|k: int| 0 <= k < rest@.len() ==> (#[trigger] rest@[k]).wf(),
                forall|k: int| 0 <= k < j ==> (#[trigger] tiles@[k])@ == up.tiles[k],
                forall|k: int| 0 <= k < m - j ==> (#[trigger] rest@[k])@ == up.tiles[m - 1 - k],
            decreases j,
        {
            match tiles.pop() {
                Some(tile) => {
                    rest.push(tile);
                },
                None => {},
            }
            j = j - 1;
        }
        let mut k: usize = 0;
        while k < m
            invariant
                k <= m,
                m == up.tiles.len(),
                rest@.len() == m - k,
                forall|l: int| 0 <= l < rest@.len() ==> (#[trigger] rest@[l]).wf(),
                forall|l: int| 0 <= l < m - k ==> (#[trigger] rest@[l])@ == up.tiles[m - 1 - l],
                self.wf(),
                self@ == (GameView {
                    map: set_down(up.map, up.history, up.tiles, offset, record, k as nat).0,
                    history: set_down(up.map, up.history, up.tiles, offset, record, k as nat).1,
                    ..old(self)@
                }),
                self.none_id() == old(self).none_id(),
                self.data_ids() == old(self).data_ids(),
                self.tick_limit() == old(self).tick_limit(),
                self.map_name() == old(self).map_name(),
            decreases m - k,
        {
            let ghost history = self@.history;
            match rest.pop() {
                Some(tile) => {
                    assert(tile@ == up.tiles[k as int]);
                    let from = tile.coord();
                    let dest = match from.checked_add(offset) {
                        Some(dest) => dest,
                        None => from,
                    };
                    let (id, modifier, data) = tile.into_parts();
                    let previous = self.map.insert(dest, id, modifier, data);
                    assert(self@.history =~= history);
                    if record {
                        self.remember(UndoEntry { coord: dest, previous });
                    }
                },
                None => {},
            }
            k = k + 1;
        }
    }

    /// Links the tile at `at` to `to`, or drops the link that it has, where
    /// tiles of its type can be linked; says whether it did.
    pub fn link_tile(&mut self, at: TileCoord, to: TileCoord, registry: &Registry) -> (done: bool)
        requires
            old(self).wf(),
            registry.wf(),
        ensures
            final(self).wf(),
            done == linkable(old(self)@.map, at, registry),
            !done ==> final(self)@ == old(self)@ && final(self).listing() == old(self).listing(),
            done ==> final(self)@ == (GameView {
                map: old(self)@.map.insert(
                    at,
                    TileView {
                        data: link_toggled(old(self)@.map[at].data, registry.data_ids(), to),
                        ..old(self)@.map[at]
                    },
                ),
                ..old(self)@
            }),
            final(self).none_id() == old(self).none_id(),
            final(self).data_ids() == old(self).data_ids(),
            final(self).tick_limit() == old(self).tick_limit(),
            final(self).map_name() == old(self).map_name(),
    {
        proof {
            self.map.lemma_listing();
        }
        let i = match self.map.index_of(at) {
            Some(i) => i,
            None => {
                return false;
            },
        };
        if !registry.can_link(self.map.tile_at(i).id()) {
            return false;
        }
        let ghost before = self.map.listing();
        let context = TileContext { ids: registry.ids(), script: None, target_alive: false, linked: None };
        self.map.handle_at(i, TileEntityMsg::ToggleLink(to), &context);
        proof {
            self.map.lemma_listing();
            let after = self.map.listing();
            crate::ordered_map::lemma_entry_in_map(before, i as int);
            assert(after =~= before.update(i as int, (before[i as int].0, after[i as int].1)));
            crate::ordered_map::lemma_update_map(before, i as int, after[i as int].1);
            assert(self@.history =~= old(self)@.history);
        }
        true
    }

    /// The contents of the file that the map is saved in, with the summary
    /// of the map as saved at `save_time`.
    pub fn save_map(&self, interner: &Interner, save_time: u64) -> (out: Result<
        (Vec<u8>, MapInfo),
        SaveError,
    >)
        requires
            self.wf(),
            interner.wf(),
        ensures
            out is Ok <==> can_save(self.listing(), interner.texts(), self.data_ids(), save_time),
            saved_bytes(out) == save_outcome(
                self.listing(),
                interner.texts(),
                self.data_ids(),
                save_time,
            ),
            out matches Ok((file, info)) ==> {
                &&& saved_in(file@) == Some(
                    (save_time, saved_listing(self.listing(), interner.texts(), self.data_ids())),
                )
                &&& info.tile_count == self.listing().len()
                &&& info.save_time == save_time
            },
    {
        save(&self.map, interner, &self.ids, save_time)
    }

    /// A copy of the recorded transfers, oldest first.
    pub fn copy_transactions(&self) -> (records: Vec<TransactionRecord>)
        ensures
            records@ == self@.transactions,
    {
        let mut records: Vec<TransactionRecord> = Vec::new();
        let n = self.transactions.len();
        let mut i: usize = 0;
        while i < n
            invariant
                n == self.transactions@.len(),
                i <= n,
                records@ == self.transactions@.take(i as int),
            decreases n - i,
        {
            let ghost before = records@;
            records.push(self.transactions[i]);
            proof {
                assert(self.transactions@.take(i as int + 1) =~= before.push(
                    self.transactions@[i as int],
                ));
            }
            i = i + 1;
        }
        proof {
            assert(self.transactions@.take(n as int) =~= self.transactions@);
        }
        records
    }

    /// Deals with one message: each kind of message is handed to the
    /// operation of its name, and the answer is what that operation gave.
    pub fn recv(&mut self, msg: GameMsg, scripts: &ScriptTable, interner: &Interner) -> (reply:
        GameReply)
        requires
            old(self).wf(),
            scripts.wf(),
            interner.wf(),
            msg matches GameMsg::PlaceTile { data: Some(d), .. } ==> d.wf(),
            msg matches GameMsg::SendMsgToTile { msg: TileEntityMsg::SetDataValue(_, value), .. }
                ==> value.wf(),
            msg matches GameMsg::SendMsgToTile { msg: TileEntityMsg::SetData(data), .. } ==> data.wf(),
            msg matches GameMsg::LoadMap(map) ==> map.wf(),
            msg matches GameMsg::SetDataMap(data) ==> data.wf(),
        ensures
            final(self).wf(),
            final(self).none_id() == old(self).none_id(),
            final(self).data_ids() == old(self).data_ids(),
            final(self).tick_limit() == old(self).tick_limit(),
            match msg {
                GameMsg::Tick { instant } => {
                    let env = TickEnv { ids: old(self).data_ids(), scripts: scripts@, instant };
                    let n = old(self).listing().len();
                    &&& reply is Ticked
                    &&& final(self).listing() == ticked_listing(old(self).listing(), env, n)
                    &&& final(self)@ == (GameView {
                        tick_count: next_tick(old(self)@.tick_count),
                        map: crate::ordered_map::entries_map(final(self).listing()),
                        transactions: old(self)@.transactions + tick_records(
                            old(self).listing(),
                            env,
                            n,
                        ),
                        ..old(self)@
                    })
                },
                GameMsg::StopTicking => {
                    &&& reply is Done
                    &&& final(self)@ == (GameView { ticking: false, ..old(self)@ })
                },
                GameMsg::PlaceTile { coord, id, record, data } => {
                    &&& reply == GameReply::Placed(
                        place_response(old(self)@.map, coord, id, old(self).none_id()),
                    )
                    &&& final(self)@ == (GameView {
                        map: placed_map(
                            old(self)@.map,
                            coord,
                            id,
                            old(self).none_id(),
                            match data {
                                Some(d) => d@,
                                None => Map::empty(),
                            },
                        ),
                        history: placed_history(
                            old(self)@.history,
                            old(self)@.map,
                            coord,
                            id,
                            old(self).none_id(),
                            record,
                        ),
                        ..old(self)@
                    })
                },
                GameMsg::GetTile(coord) => {
                    &&& final(self)@ == old(self)@
                    &&& reply matches GameReply::Tile(out)
                    &&& out is Some <==> old(self)@.map.contains_key(coord)
                    &&& out matches Some(id) ==> id == old(self)@.map[coord].id
                },
                GameMsg::GetTileEntity(coord) => {
                    &&& final(self)@ == old(self)@
                    &&& reply matches GameReply::TileEntity(out)
                    &&& out is Some <==> old(self)@.map.contains_key(coord)
                    &&& out matches Some(tile) ==> tile.wf() && tile@ == old(self)@.map[coord]
                },
                GameMsg::SendMsgToTile { coord, msg: inner, instant } => {
                    &&& reply matches GameReply::FromTile(answer)
                    &&& !old(self)@.map.contains_key(coord) ==> answer is Absent && final(self)@
                        == old(self)@
                    &&& old(self)@.map.contains_key(coord) ==> {
                        let i = crate::ordered_map::position(old(self).listing(), coord);
                        let env = TickEnv { ids: old(self).data_ids(), scripts: scripts@, instant };
                        &&& 0 <= i < old(self).listing().len()
                        &&& final(self)@ == (GameView {
                            map: crate::ordered_map::entries_map(final(self).listing()),
                            transactions: final(self)@.transactions,
                            ..old(self)@
                        })
                        &&& if inner is Tick {
                            &&& answer is Done
                            &&& final(self).listing() == crate::map::tile_stepped(
                                old(self).listing(),
                                i,
                                env,
                            )
                            &&& final(self)@.transactions == old(self)@.transactions
                                + crate::map::step_records(old(self).listing(), i, env)
                        } else {
                            &&& final(self)@.transactions == old(self)@.transactions
                            &&& final(self).listing().len() == old(self).listing().len()
                            &&& forall|j: int|
                                0 <= j < old(self).listing().len() && j != i ==> final(self).listing()[j] == old(self).listing()[j]
                            &&& final(self).listing()[i].0 == coord
                            &&& handled(
                                old(self).listing()[i].1,
                                inner,
                                TileContext {
                                    ids: old(self).data_ids(),
                                    script: None,
                                    target_alive: false,
                                    linked: None,
                                },
                                final(self).listing()[i].1,
                                answer,
                            )
                        }
                    }
                },
                GameMsg::MoveTiles { coords, offset, record } => {
                    &&& reply is Done
                    &&& final(self)@ == (GameView {
                        map: moved(old(self)@.map, old(self)@.history, coords@, offset, record).0,
                        history: moved(old(self)@.map, old(self)@.history, coords@, offset, record).1,
                        ..old(self)@
                    })
                },
                GameMsg::Undo => {
                    &&& reply == GameReply::Undone(old(self)@.history.len() > 0)
                    &&& final(self)@ == (GameView {
                        map: undone_map(old(self)@.map, old(self)@.history),
                        history: undone_history(old(self)@.history),
                        ..old(self)@
                    })
                },
                GameMsg::RenderInfoRequest { context } => {
                    &&& final(self)@ == old(self)@
                    &&& reply matches GameReply::RenderInfo(info)
                    &&& info.instances@ == visible(
                        old(self).listing(),
                        context.culling_range,
                        context.ids,
                    )
                },
                GameMsg::GetRecordedTransactions => {
                    &&& final(self)@ == old(self)@
                    &&& reply matches GameReply::Transactions(records)
                    &&& records@ == old(self)@.transactions
                },
                GameMsg::PruneTransactions { now, window } => {
                    &&& reply is Done
                    &&& final(self)@ == (GameView {
                        transactions: shown(old(self)@.transactions, now, window),
                        ..old(self)@
                    })
                },
                GameMsg::GetMapInfo { save_time } => {
                    &&& final(self)@ == old(self)@
                    &&& reply matches GameReply::Info(info, name)
                    &&& info.tile_count == old(self).listing().len()
                    &&& info.save_time == save_time
                    &&& name@ == old(self).map_name()
                },
                GameMsg::SaveMap { save_time } => {
                    &&& final(self)@ == old(self)@
                    &&& final(self).listing() == old(self).listing()
                    &&& reply matches GameReply::Saved(out)
                    &&& out is Ok <==> can_save(
                        old(self).listing(),
                        interner.texts(),
                        old(self).data_ids(),
                        save_time,
                    )
                    &&& saved_bytes(out) == save_outcome(
                        old(self).listing(),
                        interner.texts(),
                        old(self).data_ids(),
                        save_time,
                    )
                    &&& out matches Ok((file, info)) ==> {
                        &&& saved_in(file@) == Some(
                            (
                                save_time,
                                saved_listing(
                                    old(self).listing(),
                                    interner.texts(),
                                    old(self).data_ids(),
                                ),
                            ),
                        )
                        &&& info.tile_count == old(self).listing().len()
                        &&& info.save_time == save_time
                    }
                },
                GameMsg::LoadMap(map) => {
                    &&& reply matches GameReply::Stopped(stopped)
                    &&& stopped@.len() == old(self).listing().len()
                    &&& forall|i: int|
                        0 <= i < stopped@.len() ==> (#[trigger] stopped@[i]).wf() && stopped@[i]@
                            == (TileView { active: false, ..old(self).listing()[i].1 })
                    &&& final(self)@ == (GameView {
                        map: map@,
                        history: Seq::empty(),
                        transactions: Seq::empty(),
                        ..old(self)@
                    })
                    &&& final(self).listing() == map.listing()
                },
                GameMsg::TakeDataMap => {
                    &&& reply matches GameReply::Data(data)
                    &&& data.wf()
                    &&& data@ == old(self)@.data
                    &&& final(self)@ == (GameView { data: Map::empty(), ..old(self)@ })
                },
                GameMsg::SetDataMap(data) => {
                    &&& reply is Done
                    &&& final(self)@ == (GameView { data: data@, ..old(self)@ })
                },
            },
    {
        match msg {
            GameMsg::Tick { instant } => GameReply::Ticked(self.tick(scripts, instant)),
            GameMsg::StopTicking => {
                self.stop_ticking();
                GameReply::Done
            },
            GameMsg::PlaceTile { coord, id, record, data } => GameReply::Placed(
                self.place_tile(coord, id, record, data),
            ),
            GameMsg::GetTile(coord) => GameReply::Tile(self.get_tile(coord)),
            GameMsg::GetTileEntity(coord) => {
                let out = match self.get_tile_entity(coord) {
                    Some(tile) => Some(tile.duplicate()),
                    None => None,
                };
                GameReply::TileEntity(out)
            },
            GameMsg::SendMsgToTile { coord, msg, instant } => GameReply::FromTile(
                self.send_msg_to_tile(coord, msg, scripts, instant),
            ),
            GameMsg::MoveTiles { coords, offset, record } => {
                self.move_tiles(&coords, offset, record);
                GameReply::Done
            },
            GameMsg::Undo => GameReply::Undone(self.undo()),
            GameMsg::RenderInfoRequest { context } => GameReply::RenderInfo(
                self.render_info(&context),
            ),
            GameMsg::GetRecordedTransactions => GameReply::Transactions(self.copy_transactions()),
            GameMsg::PruneTransactions { now, window } => {
                self.prune_transactions(now, window);
                GameReply::Done
            },
            GameMsg::GetMapInfo { save_time } => GameReply::Info(
                self.map_info(save_time),
                self.map.name().to_owned(),
            ),
            GameMsg::SaveMap { save_time } => GameReply::Saved(self.save_map(interner, save_time)),
            GameMsg::LoadMap(map) => GameReply::Stopped(self.load_map(map)),
            GameMsg::TakeDataMap => GameReply::Data(self.take_data_map()),
            GameMsg::SetDataMap(data) => {
                self.set_data_map(data);
                GameReply::Done
            },
        }
    }
}

/// Right after a placement the coordinate holds a tile of the placed type;
/// right after the type that stands for no tile was placed, it holds none.
pub proof fn law_place_then_get(
    map: Map<TileCoord, TileView>,
    coord: TileCoord,
    id: Interned,
    none: Interned,
    data: Map<Interned, DataView>,
)
    ensures
        id != none ==> placed_map(map, coord, id, none, data).contains_key(coord) && placed_map(
            map,
            coord,
            id,
            none,
            data,
        )[coord].id == id,
        id == none ==> !placed_map(map, coord, id, none, data).contains_key(coord),
        forall|other: TileCoord|
            other != coord ==> placed_map(map, coord, id, none, data).contains_key(other)
                == map.contains_key(other),
{
}

/// Undoing a recorded placement that changed the map gives back the map as it
/// was, and the history as it was unless it was full.
pub proof fn law_undo_restores(
    map: Map<TileCoord, TileView>,
    history: Seq<UndoView>,
    coord: TileCoord,
    id: Interned,
    none: Interned,
    data: Map<Interned, DataView>,
)
    requires
        in_place(map),
        place_response(map, coord, id, none) != PlaceTileResponse::Ignored,
    ensures
        undone_map(
            placed_map(map, coord, id, none, data),
            placed_history(history, map, coord, id, none, true),
        ) == map,
        history.len() < UNDO_CAPACITY ==> undone_history(
            placed_history(history, map, coord, id, none, true),
        ) == history,
{
    let after = placed_map(map, coord, id, none, data);
    let steps = placed_history(history, map, coord, id, none, true);
    assert(steps.last() == undo_step(map, coord));
    assert(undone_map(after, steps) =~= map);
    if history.len() < UNDO_CAPACITY {
        assert(undone_history(steps) =~= history);
    }
}

/// With an empty history, undoing changes neither the map nor the history.
pub proof fn law_undo_of_nothing(map: Map<TileCoord, TileView>)
    ensures
        undone_map(map, Seq::<UndoView>::empty()) == map,
        undone_history(Seq::<UndoView>::empty()) == Seq::<UndoView>::empty(),
{
}

/// Placements keep every tile active and where it is filed.
pub proof fn lemma_placed_in_place(
    map: Map<TileCoord, TileView>,
    coord: TileCoord,
    id: Interned,
    none: Interned,
    data: Map<Interned, DataView>,
)
    requires
        in_place(map),
    ensures
        in_place(placed_map(map, coord, id, none, data)),
{
}

/// After any run of recorded placements, undoing once for each placement that
/// changed the map, last first, gives back the map and the history as they
/// were, as long as the history had room for all of them.
pub proof fn law_undo_all(
    map: Map<TileCoord, TileView>,
    history: Seq<UndoView>,
    none: Interned,
    ops: Seq<PlaceOp>,
)
    requires
        in_place(map),
        history.len() + ops.len() <= UNDO_CAPACITY,
    ensures
        in_place(place_all(map, history, none, ops).0),
        history.len() <= place_all(map, history, none, ops).1.len() <= history.len() + ops.len(),
        undo_times(
            place_all(map, history, none, ops).0,
            place_all(map, history, none, ops).1,
            (place_all(map, history, none, ops).1.len() - history.len()) as nat,
        ) == (map, history),
    decreases ops.len(),
{
    if ops.len() > 0 {
        let before = place_all(map, history, none, ops.drop_last());
        let op = ops.last();
        law_undo_all(map, history, none, ops.drop_last());
        lemma_placed_in_place(before.0, op.coord, op.id, none, op.data);
        if place_response(before.0, op.coord, op.id, none) != PlaceTileResponse::Ignored {
            law_undo_restores(before.0, before.1, op.coord, op.id, none, op.data);
        }
    }
}

/// After `n` ticks the tick count has gone up by `n`, wrapping at the end of
/// its range: no number of ticks brings it out of step.
pub proof fn law_tick_count(tick_count: u64, n: nat)
    ensures
        after_ticks(tick_count, n) == (tick_count + n) % 0x1_0000_0000_0000_0000,
    decreases n,
{
    if n > 0 {
        law_tick_count(tick_count, (n - 1) as nat);
    }
}

/// A tick that took longer than the limit gives exactly the warning that
/// names both times, any other tick gives none; and whatever a tick took, the
/// next tick count is the same.
pub proof fn law_overrun(elapsed: u64, limit: u64, tick_count: u64)
    ensures
        elapsed > limit ==> overrun(elapsed, limit) == Some(TickOverrun { elapsed, maximum: limit }),
        elapsed <= limit ==> overrun(elapsed, limit) is None,
        next_tick(tick_count) != tick_count,
{
}

/// Undoing a recorded placement that changed the map of a coordinator gives
/// back the map as it was.
pub proof fn law_undo_restores_game(
    game: &Game,
    coord: TileCoord,
    id: Interned,
    data: Map<Interned, DataView>,
)
    requires
        game.wf(),
        place_response(game@.map, coord, id, game.none_id()) != PlaceTileResponse::Ignored,
    ensures
        undone_map(
            placed_map(game@.map, coord, id, game.none_id(), data),
            placed_history(game@.history, game@.map, coord, id, game.none_id(), true),
        ) == game@.map,
{
    game.lemma_wf();
    law_undo_restores(game@.map, game@.history, coord, id, game.none_id(), data);
}

} // verus!
