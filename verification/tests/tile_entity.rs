use automancy::coord::TileCoord;
use automancy::data::{Data, DataMap};
use automancy::interner::{Interned, Interner};
use automancy::inventory::{Inventory, Item, ItemStack};
use automancy::script::Script;
use automancy::tile_entity::{
    DataIds, TileContext, TileEntity, TileEntityMsg, TileEntityReply, TileState, Transfer,
};

fn ids() -> DataIds {
    let mut interner = Interner::new();
    DataIds::new(&mut interner).unwrap()
}

fn item(index: u32) -> Interned {
    Interned { index: 100 + index }
}

fn stack(index: u32, amount: u32) -> ItemStack {
    ItemStack { item: Item { id: item(index) }, amount }
}

fn tile(data: DataMap) -> TileEntity {
    TileEntity::new(Interned { index: 50 }, TileCoord::new(2, -1), 3, data)
}

fn quiet(ids: DataIds) -> TileContext<'static> {
    TileContext { ids, script: None, target_alive: false, linked: None }
}

#[test]
fn a_new_tile_is_active_and_holds_its_parts() {
    let t = tile(DataMap::new());
    assert_eq!(t.state(), TileState::Active);
    assert_eq!(t.id(), Interned { index: 50 });
    assert_eq!(t.coord(), TileCoord::new(2, -1));
    assert_eq!(t.modifier(), 3);
    assert_eq!(t.data().len(), 0);
}

#[test]
fn set_get_and_remove_data() {
    let ids = ids();
    let mut t = tile(DataMap::new());
    let reply = t.handle(TileEntityMsg::SetDataValue(ids.target, Data::Bool(true)), &quiet(ids));
    assert!(matches!(reply, TileEntityReply::Done));
    let reply = t.handle(TileEntityMsg::GetDataValue(ids.target), &quiet(ids));
    assert!(matches!(reply, TileEntityReply::Value(Some(Data::Bool(true)))));
    let reply = t.handle(TileEntityMsg::GetDataValue(ids.link), &quiet(ids));
    assert!(matches!(reply, TileEntityReply::Value(None)));
    let reply = t.handle(TileEntityMsg::GetData, &quiet(ids));
    match reply {
        TileEntityReply::Data(data) => {
            assert_eq!(data.len(), 1);
            assert_eq!(data.get(ids.target).unwrap().as_bool(), Some(true));
        }
        _ => panic!("a tile hands out its data"),
    }
    let reply = t.handle(TileEntityMsg::RemoveData(ids.target), &quiet(ids));
    assert!(matches!(reply, TileEntityReply::Done));
    assert_eq!(t.data().len(), 0);
}

#[test]
fn an_unset_key_differs_from_a_false_value() {
    let ids = ids();
    let mut t = tile(DataMap::new());
    assert!(t.data().get(ids.linked).is_none());
    t.handle(TileEntityMsg::SetDataValue(ids.linked, Data::Bool(false)), &quiet(ids));
    assert_eq!(t.data().get(ids.linked).unwrap().as_bool(), Some(false));
    assert!(t.data().contains_key(ids.linked));
}

#[test]
fn a_tombstoned_tile_answers_that_it_is_absent() {
    let ids = ids();
    let mut t = tile(DataMap::new());
    t.handle(TileEntityMsg::SetDataValue(ids.target, Data::Amount(4)), &quiet(ids));
    t.tombstone();
    assert_eq!(t.state(), TileState::Tombstoned);
    for msg in [
        TileEntityMsg::GetData,
        TileEntityMsg::GetDataValue(ids.target),
        TileEntityMsg::SetDataValue(ids.target, Data::Amount(9)),
        TileEntityMsg::RemoveData(ids.target),
        TileEntityMsg::Tick { tick_count: 1 },
        TileEntityMsg::Transaction(stack(0, 1)),
        TileEntityMsg::Withdraw(vec![stack(0, 1)]),
        TileEntityMsg::ToggleLink(TileCoord::zero()),
    ] {
        assert!(matches!(t.handle(msg, &quiet(ids)), TileEntityReply::Absent));
    }
    assert_eq!(t.data().get(ids.target).unwrap().as_amount(), Some(4));
    assert_eq!(t.data().len(), 1);
}

#[test]
fn a_tick_without_a_script_does_nothing() {
    let ids = ids();
    let mut t = tile(DataMap::new());
    let out = t.tick(None, &ids, true, None);
    assert!(out.transfers.is_empty());
    assert!(out.withdrawals.is_empty());
    assert_eq!(t.data().len(), 0);
}

#[test]
fn a_tick_consumes_inputs_and_keeps_outputs() {
    let ids = ids();
    let mut t = tile(DataMap::new());
    let mut buffer = Inventory::new();
    buffer.add(item(0), 5);
    t.set_buffer(buffer, &ids);
    let script = Script::new(Interned { index: 60 }, Some(vec![stack(0, 2)]), vec![stack(1, 3)]);
    assert!(t.tick(Some(&script), &ids, false, None).transfers.is_empty());
    assert_eq!(t.buffer(&ids).get(item(0)), 3);
    assert_eq!(t.buffer(&ids).get(item(1)), 3);
    assert!(t.tick(Some(&script), &ids, false, None).transfers.is_empty());
    assert_eq!(t.buffer(&ids).get(item(0)), 1);
    assert_eq!(t.buffer(&ids).get(item(1)), 6);
    assert!(t.tick(Some(&script), &ids, false, None).transfers.is_empty());
    assert_eq!(t.buffer(&ids).get(item(0)), 1);
    assert_eq!(t.buffer(&ids).get(item(1)), 6);
}

#[test]
fn a_tick_pushes_outputs_towards_a_live_target() {
    let ids = ids();
    let mut data = DataMap::new();
    data.set(ids.target, Data::Coord(TileCoord::bottom_left()));
    let mut t = tile(data);
    let script = Script::new(Interned { index: 60 }, None, vec![stack(1, 3), stack(2, 1)]);
    let out = t.tick(Some(&script), &ids, true, None);
    assert!(out.withdrawals.is_empty());
    let dest = TileCoord::new(1, 0);
    assert_eq!(
        out.transfers,
        vec![
            Transfer { source: TileCoord::new(2, -1), dest, stack: stack(1, 3) },
            Transfer { source: TileCoord::new(2, -1), dest, stack: stack(2, 1) },
        ]
    );
    assert!(t.buffer(&ids).is_empty());
    assert_eq!(t.destination(&ids), Some(dest));
    let out = t.tick(Some(&script), &ids, false, None);
    assert!(out.transfers.is_empty());
    assert_eq!(t.buffer(&ids).get(item(1)), 3);
    assert_eq!(t.buffer(&ids).get(item(2)), 1);
}

#[test]
fn a_target_of_no_step_is_no_destination() {
    let ids = ids();
    let mut data = DataMap::new();
    data.set(ids.target, Data::Coord(TileCoord::zero()));
    let t = tile(data);
    assert_eq!(t.target(&ids), Some(TileCoord::zero()));
    assert_eq!(t.destination(&ids), None);
    let mut data = DataMap::new();
    data.set(ids.target, Data::Coord(TileCoord::new(i32::MAX, 0)));
    assert_eq!(tile(data).destination(&ids), None);
}

#[test]
fn receive_adds_to_the_buffer() {
    let ids = ids();
    let mut t = tile(DataMap::new());
    t.receive(stack(4, 2), &ids);
    t.handle(TileEntityMsg::Transaction(stack(4, 5)), &quiet(ids));
    assert_eq!(t.buffer(&ids).get(item(4)), 7);
}

#[test]
fn linking_is_a_toggle() {
    let ids = ids();
    let mut t = tile(DataMap::new());
    assert_eq!(t.link(&ids), None);
    t.toggle_link(TileCoord::new(9, 9), &ids);
    assert_eq!(t.link(&ids), Some(TileCoord::new(9, 9)));
    t.toggle_link(TileCoord::new(9, 9), &ids);
    assert_eq!(t.link(&ids), None);
    assert_eq!(t.data().len(), 0);
    t.handle(TileEntityMsg::ToggleLink(TileCoord::new(1, 2)), &quiet(ids));
    assert_eq!(t.link(&ids), Some(TileCoord::new(1, 2)));
    t.handle(TileEntityMsg::ToggleLink(TileCoord::new(3, 4)), &quiet(ids));
    assert_eq!(t.link(&ids), None);
}

#[test]
fn set_data_replaces_the_store() {
    let ids = ids();
    let mut t = tile(DataMap::new());
    t.handle(TileEntityMsg::SetDataValue(ids.target, Data::Amount(1)), &quiet(ids));
    let mut data = DataMap::new();
    data.set(ids.link, Data::Coord(TileCoord::zero()));
    t.handle(TileEntityMsg::SetData(data), &quiet(ids));
    assert!(t.data().get(ids.target).is_none());
    assert_eq!(t.link(&ids), Some(TileCoord::zero()));
}

#[test]
fn a_tile_draws_its_inputs_from_the_tile_it_is_linked_to() {
    let ids = ids();
    let mut t = tile(DataMap::new());
    let mut own = Inventory::new();
    own.add(item(0), 1);
    t.set_buffer(own, &ids);
    let mut linked = Inventory::new();
    linked.add(item(0), 5);
    let script = Script::new(Interned { index: 60 }, Some(vec![stack(0, 2)]), vec![stack(1, 1)]);
    let out = t.tick(Some(&script), &ids, false, Some(&linked));
    assert_eq!(out.withdrawals, vec![stack(0, 2)]);
    assert!(out.transfers.is_empty());
    assert_eq!(t.buffer(&ids).get(item(0)), 1);
    assert_eq!(t.buffer(&ids).get(item(1)), 1);
    // Its own buffer comes first where it holds the inputs.
    let mut own = Inventory::new();
    own.add(item(0), 2);
    t.set_buffer(own, &ids);
    let out = t.tick(Some(&script), &ids, false, Some(&linked));
    assert!(out.withdrawals.is_empty());
    assert_eq!(t.buffer(&ids).get(item(0)), 0);
    assert_eq!(t.buffer(&ids).get(item(1)), 1);
    // Where neither holds them, nothing happens.
    let poor = Inventory::new();
    let out = t.tick(Some(&script), &ids, false, Some(&poor));
    assert!(out.withdrawals.is_empty());
    assert_eq!(t.buffer(&ids).get(item(1)), 1);
}

#[test]
fn withdraw_takes_all_or_nothing() {
    let ids = ids();
    let mut t = tile(DataMap::new());
    t.receive(stack(0, 3), &ids);
    t.receive(stack(1, 1), &ids);
    t.withdraw(&vec![stack(0, 2), stack(1, 2)], &ids);
    assert_eq!(t.buffer(&ids).get(item(0)), 3);
    assert_eq!(t.buffer(&ids).get(item(1)), 1);
    let reply = t.handle(TileEntityMsg::Withdraw(vec![stack(0, 2), stack(1, 1)]), &quiet(ids));
    assert!(matches!(reply, TileEntityReply::Done));
    assert_eq!(t.buffer(&ids).get(item(0)), 1);
    assert_eq!(t.buffer(&ids).get(item(1)), 0);
}
