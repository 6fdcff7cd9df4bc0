//! What the choices made in the menus of a tile ask of the tile: each choice
//! becomes the messages that bring the tile's data in line with it.

use crate::coord::TileCoord;
use crate::data::{Data, DataView};
use crate::interner::Interned;
use crate::inventory::{added, count_in, lesser, taken, taken_amount, Inventory, ItemAmount};
use crate::tile_entity::{DataIds, TileEntityMsg};
use vstd::prelude::*;

verus! {

/// What a message stands for, as far as the menus send one.
pub enum MsgView {
    /// Put a value under a key.
    Put(Interned, DataView),
    /// Take out what stands under a key.
    Drop(Interned),
    /// Any other message.
    Other,
}

/// What `msg` stands for.
pub open spec fn msg_view(msg: TileEntityMsg) -> MsgView {
    match msg {
        TileEntityMsg::SetDataValue(key, value) => MsgView::Put(key, value@),
        TileEntityMsg::RemoveData(key) => MsgView::Drop(key),
        _ => MsgView::Other,
    }
}

/// What each message of a list stands for.
pub open spec fn msg_views(msgs: Seq<TileEntityMsg>) -> Seq<MsgView> {
    Seq::new(msgs.len(), |i: int| msg_view(msgs[i]))
}

/// What choosing the target `chosen` asks of a tile whose target is
/// `current`: nothing where they are the same; else to set the new target, or
/// to drop the target where none was chosen.
pub fn config_target(current: Option<TileCoord>, chosen: Option<TileCoord>, ids: &DataIds) -> (out:
    Option<TileEntityMsg>)
    ensures
        out is None <==> chosen == current,
        out matches Some(msg) ==> msg_view(msg) == (match chosen {
            Some(target) => MsgView::Put(ids.target, DataView::Coord(target)),
            None => MsgView::Drop(ids.target),
        }) && (msg matches TileEntityMsg::SetDataValue(_, value) ==> value.wf()),
{
    let same = match (current, chosen) {
        (Some(a), Some(b)) => a.q == b.q && a.r == b.r,
        (None, None) => true,
        _ => false,
    };
    if same {
        None
    } else {
        match chosen {
            Some(target) => Some(TileEntityMsg::SetDataValue(ids.target, Data::Coord(target))),
            None => Some(TileEntityMsg::RemoveData(ids.target)),
        }
    }
}

/// What choosing the amount `chosen` asks of a tile whose amount is
/// `current`: the choice is held to `max_amount`, and where that differs
/// from `current`, the tile is to set it under `key`.
pub fn config_amount(
    current: ItemAmount,
    chosen: ItemAmount,
    max_amount: ItemAmount,
    key: Interned,
) -> (out: Option<TileEntityMsg>)
    ensures
        out is None <==> lesser(chosen, max_amount) == current,
        out matches Some(msg) ==> msg_view(msg) == MsgView::Put(
            key,
            DataView::Amount(lesser(chosen, max_amount)),
        ) && (msg matches TileEntityMsg::SetDataValue(_, value) ==> value.wf()),
{
    let amount = if chosen <= max_amount {
        chosen
    } else {
        max_amount
    };
    if amount == current {
        None
    } else {
        Some(TileEntityMsg::SetDataValue(key, Data::Amount(amount)))
    }
}

/// What choosing the item or the script `chosen` asks of a tile that has
/// `current`: where one was chosen and it is another, the tile is to set it
/// under `key` and to drop its buffer, which held what the old choice made.
pub fn config_choice(
    current: Option<Interned>,
    chosen: Option<Interned>,
    key: Interned,
    ids: &DataIds,
) -> (out: Vec<TileEntityMsg>)
    ensures
        msg_views(out@) == (if chosen is Some && chosen != current {
            seq![
                MsgView::Put(key, DataView::Id(chosen->Some_0)),
                MsgView::Drop(ids.buffer),
            ]
        } else {
            Seq::empty()
        }),
        forall|i: int|
            0 <= i < out@.len() ==> (#[trigger] out@[i] matches TileEntityMsg::SetDataValue(_, value)
                ==> value.wf()),
{
    let mut out: Vec<TileEntityMsg> = Vec::new();
    match chosen {
        Some(id) => {
            let same = match current {
                Some(old) => old == id,
                None => false,
            };
            if !same {
                out.push(TileEntityMsg::SetDataValue(key, Data::Id(id)));
                out.push(TileEntityMsg::RemoveData(ids.buffer));
                assert(msg_views(out@) =~= seq![
                    MsgView::Put(key, DataView::Id(id)),
                    MsgView::Drop(ids.buffer),
                ]);
            } else {
                assert(msg_views(out@) =~= Seq::empty());
            }
        },
        None => {
            assert(msg_views(out@) =~= Seq::empty());
        },
    }
    out
}

/// Moves up to `amount` of `item` from the buffer of a tile to the inventory
/// of the player, and says whether the buffer gave anything: it gives what it
/// holds, up to `amount`, and nothing where it holds none.
pub fn take_item(buffer: &mut Inventory, player: &mut Inventory, item: Interned, amount: ItemAmount) -> (
    given: bool
)
    requires
        old(buffer).wf(),
        old(player).wf(),
    ensures
        final(buffer).wf(),
        final(player).wf(),
        given == (count_in(old(buffer)@, item) > 0),
        final(buffer)@ == taken(old(buffer)@, item, amount),
        final(player)@ == (match taken_amount(old(buffer)@, item, amount) {
            Some(n) => added(old(player)@, item, n),
            None => old(player)@,
        }),
{
    match buffer.take(item, amount) {
        Some(n) => {
            player.add(item, n);
            true
        },
        None => false,
    }
}

/// The tile type that is selected after `clicked` was clicked: none where it
/// was the selected one, else `clicked`.
pub fn toggle_selection(selected: Option<Interned>, clicked: Interned) -> (out: Option<Interned>)
    ensures
        out == (if selected == Some(clicked) {
            None
        } else {
            Some(clicked)
        }),
{
    match selected {
        Some(id) => if id == clicked {
            None
        } else {
            Some(clicked)
        },
        None => Some(clicked),
    }
}

/// Whether a placement is to be asked for at `pointing_at`: not where the
/// last one was asked for at the same coordinate.
pub fn should_place(already_placed_at: Option<TileCoord>, pointing_at: TileCoord) -> (b: bool)
    ensures
        b == (already_placed_at != Some(pointing_at)),
{
    match already_placed_at {
        Some(at) => !(at.q == pointing_at.q && at.r == pointing_at.r),
        None => true,
    }
}

/// Where each coordinate of `group` lies after the group was moved by
/// `direction`; a coordinate whose new place is no coordinate stays.
pub fn moved_group(group: &Vec<TileCoord>, direction: TileCoord) -> (out: Vec<TileCoord>)
    ensures
        out@.len() == group@.len(),
        forall|i: int|
            0 <= i < group@.len() ==> #[trigger] out@[i] == crate::game::set_down_at(
                group@[i],
                direction,
            ),
{
    let mut out: Vec<TileCoord> = Vec::new();
    let n = group.len();
    let mut i: usize = 0;
    while i < n
        invariant
            n == group@.len(),
            i <= n,
            out@.len() == i,
            forall|k: int|
                0 <= k < i ==> #[trigger] out@[k] == crate::game::set_down_at(group@[k], direction),
        decreases n - i,
    {
        let dest = match group[i].checked_add(direction) {
            Some(dest) => dest,
            None => group[i],
        };
        out.push(dest);
        i = i + 1;
    }
    out
}

} // verus!
