//! The state machine of one placed tile: its data store, what it answers to
//! each message, and what it does on a tick.

use crate::coord::TileCoord;
use crate::data::{coord_of, counts_of, id_of, lookup, Data, DataMap, DataView};
use crate::interner::Interned;
use crate::inventory::{add_all, added, can_take_all, take_all, Inventory, ItemAmount, ItemStack};
use crate::ordered_map::{
    ascending, entries_map, lemma_entry_in_map, lemma_sorted_entries, position, sorted_entries,
};
use crate::script::{copy_stacks, Script, ScriptView};
use vstd::prelude::*;

verus! {

/// The keys under which a tile keeps what the engine itself reads.
#[derive(Clone, Copy, Debug, PartialEq, Eq, Structural)]
pub struct DataIds {
    /// The inventory that the tile holds.
    pub buffer: Interned,
    /// The script that the tile runs.
    pub script: Interned,
    /// The direction in which the tile pushes what it produces.
    pub target: Interned,
    /// The coordinate that the tile is linked to.
    pub link: Interned,
    /// Set on a tile type whose tiles can be linked.
    pub linked: Interned,
}

impl DataIds {
    /// The keys are pairwise distinct.
    pub open spec fn wf(&self) -> bool {
        &&& self.buffer != self.script
        &&& self.buffer != self.target
        &&& self.buffer != self.link
        &&& self.buffer != self.linked
        &&& self.script != self.target
        &&& self.script != self.link
        &&& self.script != self.linked
        &&& self.target != self.link
        &&& self.target != self.linked
        &&& self.link != self.linked
    }
}

/// Whether a tile still takes part in the world.
#[derive(Clone, Copy, Debug, PartialEq, Eq, Structural)]
pub enum TileState {
    /// The tile ticks and answers.
    Active,
    /// The tile was removed: it ticks no more, and answers that it is absent.
    Tombstoned,
}

/// A stack on its way from one tile to another.
#[derive(Clone, Copy, Debug, PartialEq, Eq, Structural)]
pub struct Transfer {
    pub source: TileCoord,
    pub dest: TileCoord,
    pub stack: ItemStack,
}

/// What a tile stands for.
pub struct TileView {
    pub id: Interned,
    pub coord: TileCoord,
    pub modifier: u32,
    pub data: Map<Interned, DataView>,
    pub active: bool,
}

/// The counts of the inventory that `data` holds as its buffer.
pub open spec fn buffer_of(data: Map<Interned, DataView>, ids: DataIds) -> Map<Interned, ItemAmount> {
    counts_of(lookup(data, ids.buffer))
}

/// `data` with `counts` as its buffer.
pub open spec fn with_buffer(
    data: Map<Interned, DataView>,
    ids: DataIds,
    counts: Map<Interned, ItemAmount>,
) -> Map<Interned, DataView> {
    data.insert(ids.buffer, DataView::Inventory(counts))
}

/// The script that `data` names.
pub open spec fn script_of(data: Map<Interned, DataView>, ids: DataIds) -> Option<Interned> {
    match lookup(data, ids.script) {
        Some(value) => id_of(value),
        None => None,
    }
}

/// The direction that `data` names as its target.
pub open spec fn target_of(data: Map<Interned, DataView>, ids: DataIds) -> Option<TileCoord> {
    match lookup(data, ids.target) {
        Some(value) => coord_of(value),
        None => None,
    }
}

/// The coordinate that `data` names as its link.
pub open spec fn link_of(data: Map<Interned, DataView>, ids: DataIds) -> Option<TileCoord> {
    match lookup(data, ids.link) {
        Some(value) => coord_of(value),
        None => None,
    }
}

/// The coordinate that a tile at `coord` with `data` pushes towards: the one
/// that its target points at, where that is another coordinate.
pub open spec fn destination(coord: TileCoord, data: Map<Interned, DataView>, ids: DataIds) -> Option<
    TileCoord,
> {
    match target_of(data, ids) {
        Some(delta) => if coord.can_add(delta) && (delta.q != 0 || delta.r != 0) {
            Some(TileCoord { q: (coord.q + delta.q) as i32, r: (coord.r + delta.r) as i32 })
        } else {
            None
        },
        None => None,
    }
}

/// Whether the buffer of `tile` has a listing in ascending order that writes
/// down no count of zero.
pub open spec fn buffer_listed(tile: TileView, ids: DataIds) -> bool {
    let stacks = sorted_entries(buffer_of(tile.data, ids));
    &&& ascending(stacks)
    &&& entries_map(stacks) == buffer_of(tile.data, ids)
    &&& forall|k: int| 0 <= k < stacks.len() ==> (#[trigger] stacks[k]).1 > 0
}

/// Where a tile finds what its script takes in.
pub enum InputSource {
    /// In its own buffer.
    Own,
    /// In the buffer of the tile that it is linked to.
    Link,
    /// Nowhere.
    Missing,
}

/// Where `tile` finds the inputs of `script`: in its own buffer where that
/// holds them, else in the buffer of the tile that it is linked to, whose
/// counts are `linked`.
pub open spec fn input_source(
    tile: TileView,
    script: ScriptView,
    ids: DataIds,
    linked: Option<Map<Interned, ItemAmount>>,
) -> InputSource {
    if can_take_all(buffer_of(tile.data, ids), script.inputs) {
        InputSource::Own
    } else if linked is Some && can_take_all(linked->Some_0, script.inputs) {
        InputSource::Link
    } else {
        InputSource::Missing
    }
}

/// Whether a tile produces on a tick: it is active, has a script, and finds
/// what the script takes in.
pub open spec fn produces(
    tile: TileView,
    script: Option<ScriptView>,
    ids: DataIds,
    linked: Option<Map<Interned, ItemAmount>>,
) -> bool {
    &&& tile.active
    &&& script is Some
    &&& !(input_source(tile, script->Some_0, ids, linked) is Missing)
}

/// Whether a tile that produces pushes its outputs away: it names a
/// destination, and a tile lives there.
pub open spec fn sends(tile: TileView, ids: DataIds, target_alive: bool) -> bool {
    target_alive && destination(tile.coord, tile.data, ids) is Some
}

/// A tile after a tick. A tile that produces loses the inputs of its script
/// from its buffer, unless it draws them from the tile that it is linked to,
/// and gains the outputs there, unless it pushes them away.
pub open spec fn ticked(
    tile: TileView,
    script: Option<ScriptView>,
    ids: DataIds,
    target_alive: bool,
    linked: Option<Map<Interned, ItemAmount>>,
) -> TileView {
    if produces(tile, script, ids, linked) {
        let own = buffer_of(tile.data, ids);
        let rest = if input_source(tile, script->Some_0, ids, linked) is Own {
            take_all(own, script->Some_0.inputs)
        } else {
            own
        };
        let kept = if sends(tile, ids, target_alive) {
            rest
        } else {
            add_all(rest, script->Some_0.outputs)
        };
        TileView { data: with_buffer(tile.data, ids, kept), ..tile }
    } else {
        tile
    }
}

/// What a tile pushes away on a tick: each output of its script, in order.
pub open spec fn transfers(
    tile: TileView,
    script: Option<ScriptView>,
    ids: DataIds,
    target_alive: bool,
    linked: Option<Map<Interned, ItemAmount>>,
) -> Seq<Transfer> {
    if produces(tile, script, ids, linked) && sends(tile, ids, target_alive) {
        Seq::new(
            script->Some_0.outputs.len(),
            |i: int|
                Transfer {
                    source: tile.coord,
                    dest: destination(tile.coord, tile.data, ids)->Some_0,
                    stack: script->Some_0.outputs[i],
                },
        )
    } else {
        Seq::empty()
    }
}

/// What a tile draws on a tick from the tile that it is linked to: the
/// inputs of its script, where it does not hold them itself and the other
/// tile does.
pub open spec fn withdrawals(
    tile: TileView,
    script: Option<ScriptView>,
    ids: DataIds,
    linked: Option<Map<Interned, ItemAmount>>,
) -> Seq<ItemStack> {
    if produces(tile, script, ids, linked) && input_source(tile, script->Some_0, ids, linked)
        is Link {
        script->Some_0.inputs
    } else {
        Seq::empty()
    }
}

/// A tile after `stacks` were drawn from it: they leave its buffer where it
/// holds them all, and nothing changes otherwise.
pub open spec fn withdrawn_from(tile: TileView, stacks: Seq<ItemStack>, ids: DataIds) -> TileView {
    if tile.active && can_take_all(buffer_of(tile.data, ids), stacks) {
        TileView {
            data: with_buffer(tile.data, ids, take_all(buffer_of(tile.data, ids), stacks)),
            ..tile
        }
    } else {
        tile
    }
}

/// The counts of the inventory in `linked`.
pub open spec fn linked_view(linked: Option<&Inventory>) -> Option<Map<Interned, ItemAmount>> {
    match linked {
        Some(inventory) => Some(inventory@),
        None => None,
    }
}

/// What a tick of a tile has come to.
pub struct TickOutcome {
    /// What the tile pushes away.
    pub transfers: Vec<Transfer>,
    /// What the tile draws from the tile that it is linked to.
    pub withdrawals: Vec<ItemStack>,
}

/// A tile after it took in `stack`.
pub open spec fn received(tile: TileView, stack: ItemStack, ids: DataIds) -> TileView {
    if tile.active {
        TileView {
            data: with_buffer(
                tile.data,
                ids,
                added(buffer_of(tile.data, ids), stack.item.id, stack.amount),
            ),
            ..tile
        }
    } else {
        tile
    }
}

/// The data of a tile after a request to link it to `to`: a tile that has a
/// link loses it, a tile without one gets it.
pub open spec fn link_toggled(data: Map<Interned, DataView>, ids: DataIds, to: TileCoord) -> Map<
    Interned,
    DataView,
> {
    if data.contains_key(ids.link) {
        data.remove(ids.link)
    } else {
        data.insert(ids.link, DataView::Coord(to))
    }
}

/// A message to a tile.
pub enum TileEntityMsg {
    /// Advance by one tick.
    Tick { tick_count: u64 },
    /// Hand out a copy of all data.
    GetData,
    /// Hand out a copy of the value under a key.
    GetDataValue(Interned),
    /// Put a value under a key.
    SetDataValue(Interned, Data),
    /// Take out what stands under a key.
    RemoveData(Interned),
    /// Put a whole store in place of the data.
    SetData(DataMap),
    /// Take in a stack that another tile pushed here.
    Transaction(ItemStack),
    /// Give up stacks that a tile linked here draws.
    Withdraw(Vec<ItemStack>),
    /// Link to a coordinate, or drop the link that there is.
    ToggleLink(TileCoord),
}

/// What a tile answers.
pub enum TileEntityReply {
    /// The message was a notification and has been dealt with.
    Done,
    /// All data.
    Data(DataMap),
    /// The value under the key asked for.
    Value(Option<Data>),
    /// What the tick has come to.
    Ticked(TickOutcome),
    /// The tile is no longer there.
    Absent,
}

/// What the engine around a tile knows at the moment of a message.
pub struct TileContext<'a> {
    /// The keys of the data that the engine reads.
    pub ids: DataIds,
    /// The script that the tile's data names, where there is one.
    pub script: Option<&'a Script>,
    /// Whether a tile lives where this one pushes towards.
    pub target_alive: bool,
    /// The buffer of the tile that this one is linked to, where one lives
    /// there.
    pub linked: Option<&'a Inventory>,
}

/// Whether a tile that stood for `before` and was handed `msg` stands for
/// `after` and answered `reply`.
pub open spec fn handled(
    before: TileView,
    msg: TileEntityMsg,
    context: TileContext,
    after: TileView,
    reply: TileEntityReply,
) -> bool {
    if !before.active {
        reply is Absent && after == before
    } else {
        match msg {
            TileEntityMsg::Tick { tick_count } => {
                &&& after == ticked(
                    before,
                    script_view(context.script),
                    context.ids,
                    context.target_alive,
                    linked_view(context.linked),
                )
                &&& reply matches TileEntityReply::Ticked(outcome)
                &&& outcome.transfers@ == transfers(
                    before,
                    script_view(context.script),
                    context.ids,
                    context.target_alive,
                    linked_view(context.linked),
                )
                &&& outcome.withdrawals@ == withdrawals(
                    before,
                    script_view(context.script),
                    context.ids,
                    linked_view(context.linked),
                )
            },
            TileEntityMsg::Withdraw(stacks) => {
                &&& after == withdrawn_from(before, stacks@, context.ids)
                &&& reply is Done
            },
            TileEntityMsg::GetData => {
                &&& after == before
                &&& reply matches TileEntityReply::Data(data)
                &&& data.wf()
                &&& data@ == before.data
            },
            TileEntityMsg::GetDataValue(key) => {
                &&& after == before
                &&& reply matches TileEntityReply::Value(value)
                &&& (match value {
                    Some(v) => Some(v@),
                    None => None,
                }) == lookup(before.data, key)
                &&& (value matches Some(v) ==> v.wf())
            },
            TileEntityMsg::SetDataValue(key, value) => {
                &&& after == (TileView { data: before.data.insert(key, value@), ..before })
                &&& reply is Done
            },
            TileEntityMsg::RemoveData(key) => {
                &&& after == (TileView { data: before.data.remove(key), ..before })
                &&& reply is Done
            },
            TileEntityMsg::SetData(data) => {
                &&& after == (TileView { data: data@, ..before })
                &&& reply is Done
            },
            TileEntityMsg::Transaction(stack) => {
                &&& after == received(before, stack, context.ids)
                &&& reply is Done
            },
            TileEntityMsg::ToggleLink(to) => {
                &&& after == (TileView {
                    data: link_toggled(before.data, context.ids, to),
                    ..before
                })
                &&& reply is Done
            },
        }
    }
}

/// One placed tile.
pub struct TileEntity {
    id: Interned,
    coord: TileCoord,
    modifier: u32,
    data: DataMap,
    state: TileState,
}

impl View for TileEntity {
    type V = TileView;

    closed spec fn view(&self) -> TileView {
        TileView {
            id: self.id,
            coord: self.coord,
            modifier: self.modifier,
            data: self.data@,
            active: self.state == TileState::Active,
        }
    }
}

/// The view of the script in `script`.
pub open spec fn script_view(script: Option<&Script>) -> Option<ScriptView> {
    match script {
        Some(s) => Some(s@),
        None => None,
    }
}

impl TileEntity {
    /// The data store is well formed.
    pub closed spec fn wf(&self) -> bool {
        self.data.wf()
    }

    /// The buffer of a well-formed tile has a listing in ascending order that
    /// writes down no count of zero.
    pub proof fn lemma_buffer_listed(&self, ids: DataIds)
        requires
            self.wf(),
        ensures
            buffer_listed(self@, ids),
    {
        let pairs = self.data.pairs();
        let nothing = Seq::<(Interned, ItemAmount)>::empty();
        lemma_sorted_entries(nothing);
        assert(entries_map(nothing) =~= Map::<Interned, ItemAmount>::empty());
        if self.data@.contains_key(ids.buffer) {
            let i = position(pairs, ids.buffer);
            lemma_entry_in_map(pairs, i);
            assert(pairs[i].1.wf());
            match pairs[i].1 {
                Data::Inventory(inventory) => {
                    lemma_sorted_entries(inventory.stacks());
                },
                _ => {},
            }
        }
    }

    /// A fresh, active tile.
    pub fn new(id: Interned, coord: TileCoord, modifier: u32, data: DataMap) -> (tile: TileEntity)
        requires
            data.wf(),
        ensures
            tile.wf(),
            tile@ == (TileView { id, coord, modifier, data: data@, active: true }),
    {
        TileEntity { id, coord, modifier, data, state: TileState::Active }
    }

    /// The type of the tile.
    pub fn id(&self) -> (id: Interned)
        ensures
            id == self@.id,
    {
        self.id
    }

    /// Where the tile stands.
    pub fn coord(&self) -> (coord: TileCoord)
        ensures
            coord == self@.coord,
    {
        self.coord
    }

    /// Which variant of its model the tile shows.
    pub fn modifier(&self) -> (modifier: u32)
        ensures
            modifier == self@.modifier,
    {
        self.modifier
    }

    /// Whether the tile still takes part in the world.
    pub fn state(&self) -> (state: TileState)
        ensures
            (state == TileState::Active) == self@.active,
    {
        self.state
    }

    /// The data of the tile.
    pub fn data(&self) -> (data: &DataMap)
        requires
            self.wf(),
        ensures
            data.wf(),
            data@ == self@.data,
    {
        &self.data
    }

    /// Takes the tile apart into its type, its variant and its data.
    pub fn into_parts(self) -> (parts: (Interned, u32, DataMap))
        requires
            self.wf(),
        ensures
            parts.0 == self@.id,
            parts.1 == self@.modifier,
            parts.2.wf(),
            parts.2@ == self@.data,
    {
        (self.id, self.modifier, self.data)
    }

    /// Sets the variant of the model that the tile shows.
    pub fn set_modifier(&mut self, modifier: u32)
        requires
            old(self).wf(),
        ensures
            final(self).wf(),
            final(self)@ == (TileView { modifier, ..old(self)@ }),
    {
        self.modifier = modifier;
    }

    /// Marks the tile as removed.
    pub fn tombstone(&mut self)
        requires
            old(self).wf(),
        ensures
            final(self).wf(),
            final(self)@ == (TileView { active: false, ..old(self)@ }),
    {
        self.state = TileState::Tombstoned;
    }

    /// A copy that stands for the same tile.
    pub fn duplicate(&self) -> (copy: TileEntity)
        requires
            self.wf(),
        ensures
            copy.wf(),
            copy@ == self@,
    {
        TileEntity {
            id: self.id,
            coord: self.coord,
            modifier: self.modifier,
            data: self.data.duplicate(),
            state: self.state,
        }
    }

    /// The script that the tile's data names.
    pub fn script_id(&self, ids: &DataIds) -> (out: Option<Interned>)
        requires
            self.wf(),
        ensures
            out == script_of(self@.data, *ids),
    {
        match self.data.get(ids.script) {
            Some(value) => value.as_id(),
            None => None,
        }
    }

    /// The direction that the tile's data names as its target.
    pub fn target(&self, ids: &DataIds) -> (out: Option<TileCoord>)
        requires
            self.wf(),
        ensures
            out == target_of(self@.data, *ids),
    {
        match self.data.get(ids.target) {
            Some(value) => value.as_coord(),
            None => None,
        }
    }

    /// The coordinate that the tile's data names as its link.
    pub fn link(&self, ids: &DataIds) -> (out: Option<TileCoord>)
        requires
            self.wf(),
        ensures
            out == link_of(self@.data, *ids),
    {
        match self.data.get(ids.link) {
            Some(value) => value.as_coord(),
            None => None,
        }
    }

    /// The coordinate that the tile pushes towards.
    pub fn destination(&self, ids: &DataIds) -> (out: Option<TileCoord>)
        requires
            self.wf(),
        ensures
            out == destination(self@.coord, self@.data, *ids),
    {
        match self.target(ids) {
            Some(delta) => {
                if delta.q == 0 && delta.r == 0 {
                    None
                } else {
                    self.coord.checked_add(delta)
                }
            },
            None => None,
        }
    }

    /// A copy of the inventory that the tile holds as its buffer; an empty
    /// one where it holds none.
    pub fn buffer(&self, ids: &DataIds) -> (buffer: Inventory)
        requires
            self.wf(),
        ensures
            buffer.wf(),
            buffer@ == buffer_of(self@.data, *ids),
    {
        match self.data.get(ids.buffer) {
            Some(Data::Inventory(inventory)) => inventory.duplicate(),
            _ => Inventory::new(),
        }
    }

    /// Puts `buffer` in place of the inventory that the tile holds.
    pub fn set_buffer(&mut self, buffer: Inventory, ids: &DataIds)
        requires
            old(self).wf(),
            buffer.wf(),
        ensures
            final(self).wf(),
            final(self)@ == (TileView {
                data: with_buffer(old(self)@.data, *ids, buffer@),
                ..old(self)@
            }),
    {
        self.data.set(ids.buffer, Data::Inventory(buffer));
    }

    /// Takes in a stack that another tile pushed here.
    pub fn receive(&mut self, stack: ItemStack, ids: &DataIds)
        requires
            old(self).wf(),
        ensures
            final(self).wf(),
            final(self)@ == received(old(self)@, stack, *ids),
    {
        match self.state {
            TileState::Active => {
                let mut buffer = self.buffer(ids);
                buffer.add(stack.item.id, stack.amount);
                self.set_buffer(buffer, ids);
            },
            TileState::Tombstoned => {},
        }
    }

    /// Links the tile to `to`, or drops the link that it has.
    pub fn toggle_link(&mut self, to: TileCoord, ids: &DataIds)
        requires
            old(self).wf(),
        ensures
            final(self).wf(),
            final(self)@ == (TileView {
                data: link_toggled(old(self)@.data, *ids, to),
                ..old(self)@
            }),
    {
        if self.data.contains_key(ids.link) {
            self.data.remove(ids.link);
        } else {
            self.data.set(ids.link, Data::Coord(to));
        }
    }

    /// Gives up `stacks` where the buffer holds them all.
    pub fn withdraw(&mut self, stacks: &Vec<ItemStack>, ids: &DataIds)
        requires
            old(self).wf(),
        ensures
            final(self).wf(),
            final(self)@ == withdrawn_from(old(self)@, stacks@, *ids),
    {
        match self.state {
            TileState::Active => {
                let mut buffer = self.buffer(ids);
                if buffer.try_take_all(stacks) {
                    self.set_buffer(buffer, ids);
                }
            },
            TileState::Tombstoned => {},
        }
    }

    /// Advances the tile by one tick and hands out what it pushes away and
    /// what it draws from the tile that it is linked to, whose buffer is
    /// `linked`.
    pub fn tick(
        &mut self,
        script: Option<&Script>,
        ids: &DataIds,
        target_alive: bool,
        linked: Option<&Inventory>,
    ) -> (out: TickOutcome)
        requires
            old(self).wf(),
            linked matches Some(inventory) ==> inventory.wf(),
        ensures
            final(self).wf(),
            final(self)@ == ticked(
                old(self)@,
                script_view(script),
                *ids,
                target_alive,
                linked_view(linked),
            ),
            out.transfers@ == transfers(
                old(self)@,
                script_view(script),
                *ids,
                target_alive,
                linked_view(linked),
            ),
            out.withdrawals@ == withdrawals(old(self)@, script_view(script), *ids, linked_view(linked)),
    {
        let mut out: Vec<Transfer> = Vec::new();
        let mut drawn: Vec<ItemStack> = Vec::new();
        let ghost none = Seq::<Transfer>::empty();
        let ghost nothing = Seq::<ItemStack>::empty();
        let script = match (self.state, script) {
            (TileState::Active, Some(script)) => script,
            _ => {
                assert(out@ =~= none && drawn@ =~= nothing);
                return TickOutcome { transfers: out, withdrawals: drawn };
            },
        };
        let mut buffer = self.buffer(ids);
        let enough = match &script.instructions.inputs {
            Some(inputs) => buffer.try_take_all(inputs),
            None => true,
        };
        if !enough {
            let from_link = match (linked, &script.instructions.inputs) {
                (Some(inventory), Some(inputs)) => inventory.holds_all(inputs),
                _ => false,
            };
            if !from_link {
                assert(out@ =~= none && drawn@ =~= nothing);
                return TickOutcome { transfers: out, withdrawals: drawn };
            }
            match &script.instructions.inputs {
                Some(inputs) => {
                    drawn = copy_stacks(inputs);
                },
                None => {},
            }
        } else {
            assert(drawn@ =~= nothing);
        }
        let dest = if target_alive {
            self.destination(ids)
        } else {
            None
        };
        match dest {
            Some(dest) => {
                let outputs = &script.instructions.outputs;
                let n = outputs.len();
                let mut i: usize = 0;
                while i < n
                    invariant
                        n == outputs@.len(),
                        i <= n,
                        out@.len() == i,
                        forall|k: int|
                            0 <= k < i ==> out@[k] == (Transfer {
                                source: self.coord,
                                dest,
                                stack: outputs@[k],
                            }),
                    decreases n - i,
                {
                    out.push(Transfer { source: self.coord, dest, stack: outputs[i] });
                    i = i + 1;
                }
                assert(out@ =~= transfers(
                    old(self)@,
                    script_view(Some(script)),
                    *ids,
                    target_alive,
                    linked_view(linked),
                ));
            },
            None => {
                buffer.add_all(&script.instructions.outputs);
                assert(out@ =~= none);
            },
        }
        self.set_buffer(buffer, ids);
        TickOutcome { transfers: out, withdrawals: drawn }
    }

    /// Deals with one message.
    pub fn handle(&mut self, msg: TileEntityMsg, context: &TileContext) -> (reply: TileEntityReply)
        requires
            old(self).wf(),
            msg matches TileEntityMsg::SetDataValue(_, value) ==> value.wf(),
            msg matches TileEntityMsg::SetData(data) ==> data.wf(),
            context.linked matches Some(inventory) ==> inventory.wf(),
        ensures
            final(self).wf(),
            handled(old(self)@, msg, *context, final(self)@, reply),
    {
        match self.state {
            TileState::Tombstoned => {
                return TileEntityReply::Absent;
            },
            TileState::Active => {},
        }
        match msg {
            TileEntityMsg::Tick { tick_count } => {
                let out = self.tick(
                    context.script,
                    &context.ids,
                    context.target_alive,
                    context.linked,
                );
                TileEntityReply::Ticked(out)
            },
            TileEntityMsg::Withdraw(stacks) => {
                self.withdraw(&stacks, &context.ids);
                TileEntityReply::Done
            },
            TileEntityMsg::GetData => TileEntityReply::Data(self.data.duplicate()),
            TileEntityMsg::GetDataValue(key) => {
                let value = match self.data.get(key) {
                    Some(value) => Some(value.duplicate()),
                    None => None,
                };
                TileEntityReply::Value(value)
            },
            TileEntityMsg::SetDataValue(key, value) => {
                self.data.set(key, value);
                TileEntityReply::Done
            },
            TileEntityMsg::RemoveData(key) => {
                self.data.remove(key);
                TileEntityReply::Done
            },
            TileEntityMsg::SetData(data) => {
                self.data = data;
                TileEntityReply::Done
            },
            TileEntityMsg::Transaction(stack) => {
                self.receive(stack, &context.ids);
                TileEntityReply::Done
            },
            TileEntityMsg::ToggleLink(to) => {
                self.toggle_link(to, &context.ids);
                TileEntityReply::Done
            },
        }
    }
}

} // verus!
