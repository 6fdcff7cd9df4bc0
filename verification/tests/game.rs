use automancy::coord::{CullingRange, TileCoord};
use automancy::data::{Data, DataMap};
use automancy::game::{
    Game, GameMsg, GameReply, PlaceTileResponse, TickOverrun, Ticked, UNDO_CAPACITY,
};
use automancy::id::Id;
use automancy::ids::GuiIds;
use automancy::interner::{Interned, Interner};
use automancy::inventory::{Item, ItemStack};
use automancy::map::{RenderContext, TileInstance, TileMap, TransactionRecord};
use automancy::registry::{Registry, Tile};
use automancy::script::{Script, ScriptTable};
use automancy::tile_entity::{DataIds, TileEntityMsg, TileEntityReply, TileState};

struct World {
    interner: Interner,
    ids: DataIds,
    none: Interned,
    producer: Interned,
    storage: Interned,
    x: Interned,
    y: Interned,
    make_x: Interned,
    x_to_y: Interned,
    scripts: ScriptTable,
    game: Game,
}

fn intern(interner: &mut Interner, text: &str) -> Interned {
    interner.intern(&Id::from_str(text).unwrap()).unwrap()
}

fn stack(item: Interned, amount: u32) -> ItemStack {
    ItemStack { item: Item { id: item }, amount }
}

fn world() -> World {
    let mut interner = Interner::new();
    let ids = DataIds::new(&mut interner).unwrap();
    let none = interner.intern(&Id::none()).unwrap();
    let producer = intern(&mut interner, "automancy:producer");
    let storage = intern(&mut interner, "automancy:storage");
    let x = intern(&mut interner, "automancy:x");
    let y = intern(&mut interner, "automancy:y");
    let make_x = intern(&mut interner, "automancy:make_x");
    let x_to_y = intern(&mut interner, "automancy:x_to_y");
    let mut scripts = ScriptTable::new();
    scripts.insert(Script::new(make_x, None, vec![stack(x, 1)]));
    scripts.insert(Script::new(x_to_y, Some(vec![stack(x, 2)]), vec![stack(y, 1)]));
    let game = Game::new(TileMap::new_empty("test".to_string()), none, ids, 50_000);
    World { interner, ids, none, producer, storage, x, y, make_x, x_to_y, scripts, game }
}

fn data_with(entries: Vec<(Interned, Data)>) -> DataMap {
    let mut data = DataMap::new();
    for (key, value) in entries {
        data.set(key, value);
    }
    data
}

fn at(q: i32, r: i32) -> TileCoord {
    TileCoord::new(q, r)
}

fn tiles_of(game: &Game) -> Vec<(TileCoord, Interned)> {
    let map = game.map();
    (0..map.len()).map(|i| (map.coord_at(i), map.tile_at(i).id())).collect()
}

fn count_at(w: &World, coord: TileCoord, item: Interned) -> u32 {
    w.game.get_tile_entity(coord).unwrap().buffer(&w.ids).get(item)
}

#[test]
fn place_then_get_returns_the_placed_type() {
    let mut w = world();
    for coord in [at(0, 0), at(-5, 9), at(i32::MAX, i32::MIN), at(i32::MIN, i32::MAX)] {
        assert_eq!(w.game.get_tile(coord), None);
        assert_eq!(w.game.place_tile(coord, w.producer, false, None), PlaceTileResponse::Placed);
        assert_eq!(w.game.get_tile(coord), Some(w.producer));
        assert_eq!(w.game.place_tile(coord, w.storage, false, None), PlaceTileResponse::Placed);
        assert_eq!(w.game.get_tile(coord), Some(w.storage));
    }
}

#[test]
fn placing_none_removes_the_tile() {
    let mut w = world();
    w.game.place_tile(at(2, 3), w.producer, false, None);
    assert_eq!(w.game.place_tile(at(2, 3), w.none, false, None), PlaceTileResponse::Removed);
    assert_eq!(w.game.get_tile(at(2, 3)), None);
    assert!(w.game.get_tile_entity(at(2, 3)).is_none());
}

#[test]
fn placing_what_is_there_is_ignored() {
    let mut w = world();
    assert_eq!(w.game.place_tile(at(1, 1), w.none, true, None), PlaceTileResponse::Ignored);
    let data = data_with(vec![(w.ids.target, Data::Coord(TileCoord::right()))]);
    assert_eq!(w.game.place_tile(at(1, 1), w.producer, true, Some(data)), PlaceTileResponse::Placed);
    assert_eq!(w.game.place_tile(at(1, 1), w.producer, false, None), PlaceTileResponse::Ignored);
    assert_eq!(w.game.place_tile(at(1, 1), w.producer, true, None), PlaceTileResponse::Ignored);
    let tile = w.game.get_tile_entity(at(1, 1)).unwrap();
    assert_eq!(tile.target(&w.ids), Some(TileCoord::right()));
    assert!(w.game.undo());
    assert!(!w.game.undo());
}

#[test]
fn a_replaced_tile_starts_afresh() {
    let mut w = world();
    let data = data_with(vec![(w.ids.script, Data::Id(w.make_x))]);
    w.game.place_tile(at(0, 0), w.producer, false, Some(data));
    w.game.tick(&w.scripts, 1);
    assert_eq!(count_at(&w, at(0, 0), w.x), 1);
    w.game.place_tile(at(0, 0), w.storage, false, None);
    assert_eq!(count_at(&w, at(0, 0), w.x), 0);
    assert_eq!(w.game.get_tile_entity(at(0, 0)).unwrap().data().len(), 0);
}

#[test]
fn undo_on_an_empty_history_is_a_no_op() {
    let mut w = world();
    w.game.place_tile(at(0, 0), w.producer, false, None);
    w.game.place_tile(at(4, -4), w.storage, false, None);
    let saved = w.game.save_map(&w.interner, 7).unwrap().0;
    let before = tiles_of(&w.game);
    assert!(!w.game.undo());
    assert_eq!(tiles_of(&w.game), before);
    assert_eq!(w.game.save_map(&w.interner, 7).unwrap().0, saved);
    assert!(matches!(w.game.recv(GameMsg::Undo, &w.scripts, &w.interner), GameReply::Undone(false)));
    assert_eq!(w.game.save_map(&w.interner, 7).unwrap().0, saved);
}

#[test]
fn undo_restores_what_a_placement_replaced() {
    let mut w = world();
    let data = data_with(vec![
        (w.ids.script, Data::Id(w.make_x)),
        (w.ids.target, Data::Coord(TileCoord::left())),
    ]);
    w.game.place_tile(at(3, 3), w.producer, false, Some(data));
    w.game.tick(&w.scripts, 1);
    w.game.tick(&w.scripts, 2);
    let saved = w.game.save_map(&w.interner, 0).unwrap().0;
    assert_eq!(w.game.place_tile(at(3, 3), w.storage, true, None), PlaceTileResponse::Placed);
    assert!(w.game.undo());
    assert_eq!(w.game.get_tile(at(3, 3)), Some(w.producer));
    assert_eq!(count_at(&w, at(3, 3), w.x), 2);
    assert_eq!(
        w.game.get_tile_entity(at(3, 3)).unwrap().target(&w.ids),
        Some(TileCoord::left())
    );
    assert_eq!(w.game.save_map(&w.interner, 0).unwrap().0, saved);
}

#[test]
fn undoing_every_placement_in_reverse_restores_the_map() {
    let mut w = world();
    w.game.place_tile(at(0, 0), w.storage, false, None);
    w.game.place_tile(at(9, 9), w.producer, false, None);
    let saved = w.game.save_map(&w.interner, 0).unwrap().0;
    let before = tiles_of(&w.game);
    let ops = [
        (at(0, 0), w.producer),
        (at(1, 0), w.storage),
        (at(0, 0), w.none),
        (at(0, 0), w.none),
        (at(1, 0), w.storage),
        (at(1, 0), w.producer),
        (at(9, 9), w.none),
        (at(0, 0), w.storage),
        (at(-3, 2), w.producer),
    ];
    let mut changed = 0;
    for (coord, id) in ops {
        if w.game.place_tile(coord, id, true, None) != PlaceTileResponse::Ignored {
            changed += 1;
        }
    }
    assert_eq!(changed, 7);
    assert_ne!(tiles_of(&w.game), before);
    for _ in 0..changed {
        assert!(w.game.undo());
    }
    assert!(!w.game.undo());
    assert_eq!(tiles_of(&w.game), before);
    assert_eq!(w.game.save_map(&w.interner, 0).unwrap().0, saved);
}

#[test]
fn the_history_forgets_its_oldest_step_when_full() {
    let mut w = world();
    for i in 0..(UNDO_CAPACITY as i32 + 3) {
        assert_eq!(w.game.place_tile(at(i, 0), w.storage, true, None), PlaceTileResponse::Placed);
    }
    let mut undone = 0;
    while w.game.undo() {
        undone += 1;
    }
    assert_eq!(undone, UNDO_CAPACITY);
    assert_eq!(UNDO_CAPACITY, 256);
    assert_eq!(tiles_of(&w.game).len(), 3);
    assert_eq!(w.game.get_tile(at(2, 0)), Some(w.storage));
    assert_eq!(w.game.get_tile(at(3, 0)), None);
}

#[test]
fn a_producer_fills_the_storage_it_points_at() {
    let mut w = world();
    let data = data_with(vec![
        (w.ids.script, Data::Id(w.make_x)),
        (w.ids.target, Data::Coord(TileCoord::right())),
    ]);
    w.game.place_tile(at(0, 0), w.producer, false, Some(data));
    w.game.place_tile(at(1, 0), w.storage, false, None);
    let n = 25;
    for tick in 0..n {
        assert_eq!(w.game.tick(&w.scripts, 1000 + tick), Ticked);
    }
    assert_eq!(count_at(&w, at(1, 0), w.x), n as u32);
    assert_eq!(count_at(&w, at(0, 0), w.x), 0);
    let log = w.game.recorded_transactions();
    assert_eq!(log.len(), n as usize);
    for (tick, record) in log.iter().enumerate() {
        assert_eq!(
            *record,
            TransactionRecord {
                source: at(0, 0),
                dest: at(1, 0),
                stack: stack(w.x, 1),
                instant: 1000 + tick as u64,
            }
        );
    }
    assert_eq!(w.game.state().tick_count, n);
}

#[test]
fn a_producer_without_a_live_target_keeps_what_it_makes() {
    let mut w = world();
    let data = data_with(vec![
        (w.ids.script, Data::Id(w.make_x)),
        (w.ids.target, Data::Coord(TileCoord::right())),
    ]);
    w.game.place_tile(at(0, 0), w.producer, false, Some(data));
    w.game.tick(&w.scripts, 0);
    w.game.tick(&w.scripts, 0);
    assert_eq!(count_at(&w, at(0, 0), w.x), 2);
    assert!(w.game.recorded_transactions().is_empty());
    w.game.place_tile(at(1, 0), w.storage, false, None);
    w.game.tick(&w.scripts, 0);
    assert_eq!(count_at(&w, at(0, 0), w.x), 2);
    assert_eq!(count_at(&w, at(1, 0), w.x), 1);
    w.game.place_tile(at(1, 0), w.none, false, None);
    w.game.tick(&w.scripts, 0);
    assert_eq!(count_at(&w, at(0, 0), w.x), 3);
    assert_eq!(w.game.recorded_transactions().len(), 1);
}

#[test]
fn a_tile_without_its_inputs_does_not_produce() {
    let mut w = world();
    let maker = data_with(vec![
        (w.ids.script, Data::Id(w.make_x)),
        (w.ids.target, Data::Coord(TileCoord::right())),
    ]);
    let turner = data_with(vec![(w.ids.script, Data::Id(w.x_to_y))]);
    w.game.place_tile(at(0, 0), w.producer, false, Some(maker));
    w.game.place_tile(at(1, 0), w.producer, false, Some(turner));
    // Tiles tick in ascending order of their coordinates: (0, 0) pushes
    // one x before (1, 0) looks for two.
    w.game.tick(&w.scripts, 0);
    assert_eq!(count_at(&w, at(1, 0), w.x), 1);
    assert_eq!(count_at(&w, at(1, 0), w.y), 0);
    w.game.tick(&w.scripts, 0);
    assert_eq!(count_at(&w, at(1, 0), w.x), 0);
    assert_eq!(count_at(&w, at(1, 0), w.y), 1);
    w.game.tick(&w.scripts, 0);
    w.game.tick(&w.scripts, 0);
    assert_eq!(count_at(&w, at(1, 0), w.x), 0);
    assert_eq!(count_at(&w, at(1, 0), w.y), 2);
}

#[test]
fn tiles_tick_in_ascending_order_of_their_coordinates() {
    let mut w = world();
    // The tile at (1, 0) pushes left, to a tile that has ticked already.
    let maker = data_with(vec![
        (w.ids.script, Data::Id(w.make_x)),
        (w.ids.target, Data::Coord(TileCoord::left())),
    ]);
    let turner = data_with(vec![(w.ids.script, Data::Id(w.x_to_y))]);
    w.game.place_tile(at(1, 0), w.producer, false, Some(maker));
    w.game.place_tile(at(0, 0), w.producer, false, Some(turner));
    w.game.tick(&w.scripts, 0);
    w.game.tick(&w.scripts, 0);
    assert_eq!(count_at(&w, at(0, 0), w.x), 2);
    assert_eq!(count_at(&w, at(0, 0), w.y), 0);
    w.game.tick(&w.scripts, 0);
    assert_eq!(count_at(&w, at(0, 0), w.x), 1);
    assert_eq!(count_at(&w, at(0, 0), w.y), 1);
}

#[test]
fn the_tick_count_wraps() {
    let mut w = world();
    assert_eq!(w.game.state().tick_count, 0);
    w.game.tick(&w.scripts, 0);
    w.game.tick(&w.scripts, 0);
    w.game.tick(&w.scripts, 0);
    assert_eq!(w.game.state().tick_count, 3);
}

#[test]
fn a_slow_tick_gives_one_warning_and_the_count_goes_on() {
    let mut w = world();
    assert_eq!(w.game.check_tick_time(0), None);
    assert_eq!(w.game.check_tick_time(50_000), None);
    assert_eq!(
        w.game.check_tick_time(50_001),
        Some(TickOverrun { elapsed: 50_001, maximum: 50_000 })
    );
    for expected in 1..=5u64 {
        w.game.tick(&w.scripts, 0);
        assert!(w.game.check_tick_time(u64::MAX).is_some());
        assert_eq!(w.game.state().tick_count, expected);
    }
}

#[test]
fn a_tick_after_stop_ticking_is_carried_out() {
    let mut w = world();
    let data = data_with(vec![(w.ids.script, Data::Id(w.make_x))]);
    w.game.place_tile(at(0, 0), w.producer, false, Some(data));
    assert!(w.game.is_ticking());
    w.game.tick(&w.scripts, 0);
    w.game.stop_ticking();
    assert!(!w.game.is_ticking());
    assert_eq!(w.game.tick(&w.scripts, 0), Ticked);
    assert_eq!(w.game.state().tick_count, 2);
    assert_eq!(count_at(&w, at(0, 0), w.x), 2);
}

#[test]
fn a_producer_fills_the_storage_one_record_a_tick() {
    let mut w = world();
    let data = data_with(vec![
        (w.ids.script, Data::Id(w.make_x)),
        (w.ids.target, Data::Coord(TileCoord::right())),
    ]);
    w.game.place_tile(at(0, 0), w.producer, false, Some(data));
    w.game.place_tile(at(1, 0), w.storage, false, None);
    for tick in 0..7u64 {
        w.game.tick(&w.scripts, 50 + tick);
        assert_eq!(count_at(&w, at(1, 0), w.x), tick as u32 + 1);
        let log = w.game.recorded_transactions();
        assert_eq!(log.len(), tick as usize + 1);
        let last = log[tick as usize];
        assert_eq!(last.source, at(0, 0));
        assert_eq!(last.dest, at(1, 0));
        assert_eq!(last.stack.item.id, w.x);
        assert_eq!(last.stack.amount, 1);
        assert_eq!(last.instant, 50 + tick);
    }
}

#[test]
fn messages_to_an_empty_coordinate_are_answered_as_absent() {
    let mut w = world();
    let reply = w.game.send_msg_to_tile(at(5, 5), TileEntityMsg::GetData, &w.scripts, 0);
    assert!(matches!(reply, TileEntityReply::Absent));
    let reply = w.game.send_msg_to_tile(
        at(5, 5),
        TileEntityMsg::SetDataValue(w.ids.target, Data::Bool(true)),
        &w.scripts,
        0,
    );
    assert!(matches!(reply, TileEntityReply::Absent));
    assert_eq!(w.game.get_tile(at(5, 5)), None);
}

#[test]
fn messages_reach_the_tile_they_are_sent_to() {
    let mut w = world();
    w.game.place_tile(at(0, 0), w.storage, false, None);
    w.game.place_tile(at(1, 0), w.storage, false, None);
    let reply = w.game.send_msg_to_tile(
        at(1, 0),
        TileEntityMsg::SetDataValue(w.ids.target, Data::Coord(TileCoord::top_left())),
        &w.scripts,
        0,
    );
    assert!(matches!(reply, TileEntityReply::Done));
    assert_eq!(w.game.get_tile_entity(at(1, 0)).unwrap().target(&w.ids), Some(at(0, -1)));
    assert_eq!(w.game.get_tile_entity(at(0, 0)).unwrap().target(&w.ids), None);
    let reply = w.game.send_msg_to_tile(
        at(1, 0),
        TileEntityMsg::GetDataValue(w.ids.target),
        &w.scripts,
        0,
    );
    match reply {
        TileEntityReply::Value(Some(value)) => assert_eq!(value.as_coord(), Some(at(0, -1))),
        _ => panic!("the tile holds a target"),
    }
    let reply =
        w.game.send_msg_to_tile(at(1, 0), TileEntityMsg::RemoveData(w.ids.target), &w.scripts, 0);
    assert!(matches!(reply, TileEntityReply::Done));
    assert_eq!(w.game.get_tile_entity(at(1, 0)).unwrap().target(&w.ids), None);
}

#[test]
fn a_tick_sent_to_one_tile_moves_only_that_tile() {
    let mut w = world();
    let maker = || {
        data_with(vec![
            (w.ids.script, Data::Id(w.make_x)),
            (w.ids.target, Data::Coord(TileCoord::right())),
        ])
    };
    let a = maker();
    let b = maker();
    w.game.place_tile(at(0, 0), w.producer, false, Some(a));
    w.game.place_tile(at(1, 0), w.producer, false, Some(b));
    let reply = w.game.send_msg_to_tile(
        at(0, 0),
        TileEntityMsg::Tick { tick_count: 0 },
        &w.scripts,
        42,
    );
    assert!(matches!(reply, TileEntityReply::Done));
    assert_eq!(count_at(&w, at(1, 0), w.x), 1);
    assert_eq!(count_at(&w, at(0, 0), w.x), 0);
    assert_eq!(w.game.recorded_transactions().len(), 1);
    assert_eq!(w.game.recorded_transactions()[0].instant, 42);
    assert_eq!(w.game.state().tick_count, 0);
}

#[test]
fn old_records_are_pruned() {
    let mut w = world();
    let data = data_with(vec![
        (w.ids.script, Data::Id(w.make_x)),
        (w.ids.target, Data::Coord(TileCoord::right())),
    ]);
    w.game.place_tile(at(0, 0), w.producer, false, Some(data));
    w.game.place_tile(at(1, 0), w.storage, false, None);
    for instant in [100, 200, 300, 400] {
        w.game.tick(&w.scripts, instant);
    }
    w.game.prune_transactions(350, 100);
    let instants: Vec<u64> = w.game.recorded_transactions().iter().map(|r| r.instant).collect();
    assert_eq!(instants, vec![300, 400]);
    w.game.prune_transactions(400, 100);
    let instants: Vec<u64> = w.game.recorded_transactions().iter().map(|r| r.instant).collect();
    assert_eq!(instants, vec![400]);
    w.game.prune_transactions(u64::MAX, 0);
    assert!(w.game.recorded_transactions().is_empty());
}

#[test]
fn the_render_snapshot_holds_the_tiles_in_range_in_order() {
    let mut w = world();
    let data = data_with(vec![(w.ids.target, Data::Coord(TileCoord::left()))]);
    w.game.place_tile(at(2, 0), w.producer, false, Some(data));
    w.game.place_tile(at(0, 1), w.storage, false, None);
    w.game.place_tile(at(-1, 0), w.storage, false, None);
    w.game.place_tile(at(5, 5), w.storage, false, None);
    let context = RenderContext { culling_range: CullingRange::new(at(0, 0), 2), ids: w.ids };
    let info = w.game.render_info(&context);
    assert_eq!(
        info.instances,
        vec![
            TileInstance { coord: at(-1, 0), id: w.storage, modifier: 0, target: None },
            TileInstance { coord: at(0, 1), id: w.storage, modifier: 0, target: None },
            TileInstance { coord: at(2, 0), id: w.producer, modifier: 0, target: Some(at(-1, 0)) },
        ]
    );
}

#[test]
fn move_tiles_shifts_every_named_tile() {
    let mut w = world();
    w.game.place_tile(at(0, 0), w.producer, false, None);
    w.game.place_tile(at(1, 0), w.storage, false, None);
    w.game.place_tile(at(2, 0), w.storage, false, None);
    w.game.place_tile(at(7, 7), w.producer, false, None);
    w.game.move_tiles(&vec![at(0, 0), at(1, 0), at(4, 4)], TileCoord::right(), true);
    assert_eq!(
        tiles_of(&w.game),
        vec![(at(1, 0), w.producer), (at(2, 0), w.storage), (at(7, 7), w.producer)]
    );
    assert_eq!(w.game.get_tile_entity(at(1, 0)).unwrap().coord(), at(1, 0));
    let mut undone = 0;
    while w.game.undo() {
        undone += 1;
    }
    assert_eq!(undone, 4);
    assert_eq!(
        tiles_of(&w.game),
        vec![
            (at(0, 0), w.producer),
            (at(1, 0), w.storage),
            (at(2, 0), w.storage),
            (at(7, 7), w.producer)
        ]
    );
}

#[test]
fn a_tile_that_cannot_move_stays() {
    let mut w = world();
    w.game.place_tile(at(i32::MAX, 0), w.producer, false, None);
    w.game.move_tiles(&vec![at(i32::MAX, 0)], TileCoord::right(), false);
    assert_eq!(tiles_of(&w.game), vec![(at(i32::MAX, 0), w.producer)]);
}

#[test]
fn load_map_replaces_the_map_and_drops_the_history() {
    let mut w = world();
    w.game.place_tile(at(0, 0), w.producer, true, None);
    let mut other = TileMap::new_empty("other".to_string());
    other.insert(at(3, 3), w.storage, 2, DataMap::new());
    let stopped = w.game.load_map(other);
    assert_eq!(stopped.len(), 1);
    assert_eq!(stopped[0].coord(), at(0, 0));
    assert_eq!(stopped[0].state(), TileState::Tombstoned);
    assert_eq!(w.game.map().name(), "other");
    assert_eq!(tiles_of(&w.game), vec![(at(3, 3), w.storage)]);
    assert!(!w.game.undo());
    assert_eq!(w.game.map_info(99).tile_count, 1);
    assert_eq!(w.game.map_info(99).save_time, 99);
}

#[test]
fn the_world_data_can_be_taken_and_put_back() {
    let mut w = world();
    w.game.set_data_map(data_with(vec![(w.x, Data::Amount(3))]));
    let data = w.game.take_data_map();
    assert_eq!(data.get(w.x).unwrap().as_amount(), Some(3));
    assert_eq!(w.game.take_data_map().len(), 0);
}

#[test]
fn recv_hands_each_message_to_its_operation() {
    let mut w = world();
    let reply = w.game.recv(
        GameMsg::PlaceTile { coord: at(0, 0), id: w.producer, record: true, data: None },
        &w.scripts, &w.interner,
    );
    assert!(matches!(reply, GameReply::Placed(PlaceTileResponse::Placed)));
    let reply = w.game.recv(GameMsg::GetTile(at(0, 0)), &w.scripts, &w.interner);
    assert!(matches!(reply, GameReply::Tile(Some(id)) if id == w.producer));
    let reply = w.game.recv(GameMsg::GetTileEntity(at(0, 0)), &w.scripts, &w.interner);
    assert!(matches!(reply, GameReply::TileEntity(Some(tile)) if tile.coord() == at(0, 0)));
    let reply = w.game.recv(GameMsg::Tick { instant: 5 }, &w.scripts, &w.interner);
    assert!(matches!(reply, GameReply::Ticked(Ticked)));
    let reply = w.game.recv(GameMsg::GetMapInfo { save_time: 11 }, &w.scripts, &w.interner);
    assert!(matches!(
        reply,
        GameReply::Info(info, name)
            if info.tile_count == 1 && info.save_time == 11 && name == "test"
    ));
    let reply = w.game.recv(GameMsg::SaveMap { save_time: 12 }, &w.scripts, &w.interner);
    assert!(matches!(reply, GameReply::Saved(Ok((_, info))) if info.save_time == 12));
    let reply = w.game.recv(
        GameMsg::MoveTiles { coords: vec![at(0, 0)], offset: at(0, 2), record: false },
        &w.scripts, &w.interner,
    );
    assert!(matches!(reply, GameReply::Done));
    assert_eq!(w.game.get_tile(at(0, 2)), Some(w.producer));
    let reply = w.game.recv(GameMsg::Undo, &w.scripts, &w.interner);
    assert!(matches!(reply, GameReply::Undone(true)));
    assert_eq!(w.game.get_tile(at(0, 0)), None);
    let reply = w.game.recv(GameMsg::StopTicking, &w.scripts, &w.interner);
    assert!(matches!(reply, GameReply::Done));
    let reply = w.game.recv(GameMsg::Tick { instant: 6 }, &w.scripts, &w.interner);
    assert!(matches!(reply, GameReply::Ticked(Ticked)));
    assert_eq!(w.game.state().tick_count, 2);
    let reply = w.game.recv(GameMsg::GetRecordedTransactions, &w.scripts, &w.interner);
    assert!(matches!(reply, GameReply::Transactions(records) if records.is_empty()));
}

#[test]
fn a_linked_tile_feeds_the_tile_that_is_linked_to_it() {
    let mut w = world();
    // A store far away holds x; the turner at the origin is linked to it
    // and pushes what it makes to the right.
    w.game.place_tile(at(10, 10), w.storage, false, None);
    w.game.place_tile(at(1, 0), w.storage, false, None);
    let turner = data_with(vec![
        (w.ids.script, Data::Id(w.x_to_y)),
        (w.ids.link, Data::Coord(at(10, 10))),
        (w.ids.target, Data::Coord(TileCoord::right())),
    ]);
    w.game.place_tile(at(0, 0), w.producer, false, Some(turner));
    for _ in 0..5 {
        w.game.send_msg_to_tile(
            at(10, 10),
            TileEntityMsg::Transaction(stack(w.x, 1)),
            &w.scripts,
            0,
        );
    }
    w.game.tick(&w.scripts, 0);
    w.game.tick(&w.scripts, 0);
    w.game.tick(&w.scripts, 0);
    assert_eq!(count_at(&w, at(10, 10), w.x), 1);
    assert_eq!(count_at(&w, at(1, 0), w.y), 2);
    assert_eq!(count_at(&w, at(0, 0), w.x), 0);
    assert_eq!(count_at(&w, at(0, 0), w.y), 0);
    assert_eq!(w.game.recorded_transactions().len(), 2);
}

#[test]
fn link_tile_toggles_the_link_of_a_linkable_tile() {
    let mut w = world();
    let gui = GuiIds::new(&mut w.interner).unwrap();
    let mut registry = Registry::new(w.none, w.ids, gui);
    registry.add_tile(
        w.storage,
        Tile {
            model: w.storage,
            function: None,
            data: data_with(vec![(w.ids.linked, Data::Bool(true))]),
        },
    );
    registry.add_tile(w.producer, Tile { model: w.producer, function: None, data: DataMap::new() });
    w.game.place_tile(at(0, 0), w.storage, false, None);
    w.game.place_tile(at(1, 0), w.producer, false, None);
    assert!(w.game.link_tile(at(0, 0), at(5, 5), &registry));
    assert_eq!(w.game.get_tile_entity(at(0, 0)).unwrap().link(&w.ids), Some(at(5, 5)));
    assert!(w.game.link_tile(at(0, 0), at(5, 5), &registry));
    assert_eq!(w.game.get_tile_entity(at(0, 0)).unwrap().link(&w.ids), None);
    assert!(!w.game.link_tile(at(1, 0), at(5, 5), &registry));
    assert_eq!(w.game.get_tile_entity(at(1, 0)).unwrap().link(&w.ids), None);
    assert!(!w.game.link_tile(at(7, 7), at(5, 5), &registry));
}

#[test]
fn shutdown_saves_the_map_and_stops_every_tile() {
    let mut w = world();
    w.game.place_tile(at(1, 0), w.storage, false, None);
    w.game.place_tile(at(0, 0), w.producer, false, None);
    let expected = w.game.save_map(&w.interner, 99).unwrap().0;
    let (saved, stopped) = w.game.shutdown(&w.interner, 99);
    let (file, info) = saved.unwrap();
    assert_eq!(file, expected);
    assert_eq!(info.tile_count, 2);
    let coords: Vec<TileCoord> = stopped.iter().map(|t| t.coord()).collect();
    assert_eq!(coords, vec![at(0, 0), at(1, 0)]);
    assert!(stopped.iter().all(|t| t.state() == TileState::Tombstoned));
}

#[test]
fn undo_on_an_empty_history_leaves_the_file_as_it_was() {
    let mut w = world();
    let data = data_with(vec![(w.ids.script, Data::Id(w.make_x))]);
    w.game.place_tile(at(0, 0), w.producer, false, Some(data));
    w.game.place_tile(at(-3, 7), w.storage, false, None);
    w.game.tick(&w.scripts, 4);
    let (before, info) = w.game.save_map(&w.interner, 77).unwrap();
    assert!(!w.game.undo());
    let (after, again) = w.game.save_map(&w.interner, 77).unwrap();
    assert_eq!(before, after);
    assert_eq!(info, again);
    assert_eq!(info.tile_count, 2);
}
