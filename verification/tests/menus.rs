use automancy::coord::TileCoord;
use automancy::data::Data;
use automancy::interner::{Interned, Interner};
use automancy::inventory::Inventory;
use automancy::map::MapInfo;
use automancy::map_list::{comes_before, sort_maps};
use automancy::report::write_msg;
use automancy::tile_config::{
    config_amount, config_choice, config_target, moved_group, should_place, take_item,
    toggle_selection,
};
use automancy::tile_entity::{DataIds, TileEntityMsg};

fn ids() -> DataIds {
    let mut interner = Interner::new();
    DataIds::new(&mut interner).unwrap()
}

fn key(index: u32) -> Interned {
    Interned { index: 100 + index }
}

#[test]
fn choosing_the_same_target_asks_nothing() {
    let ids = ids();
    assert!(config_target(None, None, &ids).is_none());
    let right = Some(TileCoord::right());
    assert!(config_target(right, right, &ids).is_none());
}

#[test]
fn choosing_another_target_sets_or_drops_it() {
    let ids = ids();
    match config_target(None, Some(TileCoord::left()), &ids) {
        Some(TileEntityMsg::SetDataValue(k, Data::Coord(c))) => {
            assert_eq!(k, ids.target);
            assert_eq!(c, TileCoord::left());
        }
        _ => panic!("a new target is set"),
    }
    match config_target(Some(TileCoord::left()), Some(TileCoord::right()), &ids) {
        Some(TileEntityMsg::SetDataValue(k, Data::Coord(c))) => {
            assert_eq!(k, ids.target);
            assert_eq!(c, TileCoord::right());
        }
        _ => panic!("a changed target is set"),
    }
    match config_target(Some(TileCoord::left()), None, &ids) {
        Some(TileEntityMsg::RemoveData(k)) => assert_eq!(k, ids.target),
        _ => panic!("a dropped target is removed"),
    }
}

#[test]
fn the_amount_is_held_to_the_maximum() {
    assert!(config_amount(5, 5, 10, key(0)).is_none());
    assert!(config_amount(10, 99, 10, key(0)).is_none());
    match config_amount(5, 99, 10, key(0)) {
        Some(TileEntityMsg::SetDataValue(k, Data::Amount(n))) => {
            assert_eq!(k, key(0));
            assert_eq!(n, 10);
        }
        _ => panic!("the amount is set"),
    }
    match config_amount(5, 0, 10, key(0)) {
        Some(TileEntityMsg::SetDataValue(_, Data::Amount(n))) => assert_eq!(n, 0),
        _ => panic!("the amount is set"),
    }
}

#[test]
fn a_new_choice_clears_the_buffer() {
    let ids = ids();
    assert!(config_choice(None, None, key(1), &ids).is_empty());
    assert!(config_choice(Some(key(5)), None, key(1), &ids).is_empty());
    assert!(config_choice(Some(key(5)), Some(key(5)), key(1), &ids).is_empty());
    let msgs = config_choice(Some(key(5)), Some(key(6)), key(1), &ids);
    assert_eq!(msgs.len(), 2);
    assert!(matches!(&msgs[0], TileEntityMsg::SetDataValue(k, Data::Id(id)) if *k == key(1) && *id == key(6)));
    assert!(matches!(&msgs[1], TileEntityMsg::RemoveData(k) if *k == ids.buffer));
    assert_eq!(config_choice(None, Some(key(6)), key(1), &ids).len(), 2);
}

#[test]
fn take_item_moves_what_the_buffer_holds() {
    let mut buffer = Inventory::new();
    let mut player = Inventory::new();
    buffer.add(key(0), 5);
    player.add(key(0), 1);
    assert!(take_item(&mut buffer, &mut player, key(0), 3));
    assert_eq!(buffer.get(key(0)), 2);
    assert_eq!(player.get(key(0)), 4);
    assert!(take_item(&mut buffer, &mut player, key(0), 3));
    assert_eq!(buffer.get(key(0)), 0);
    assert_eq!(player.get(key(0)), 6);
    assert!(!take_item(&mut buffer, &mut player, key(0), 3));
    assert!(!take_item(&mut buffer, &mut player, key(9), 1));
    assert_eq!(player.get(key(0)), 6);
    assert_eq!(player.get(key(9)), 0);
}

#[test]
fn clicking_the_selected_tile_type_unselects_it() {
    assert_eq!(toggle_selection(None, key(1)), Some(key(1)));
    assert_eq!(toggle_selection(Some(key(2)), key(1)), Some(key(1)));
    assert_eq!(toggle_selection(Some(key(1)), key(1)), None);
}

#[test]
fn a_placement_is_not_asked_for_twice_at_one_coordinate() {
    let here = TileCoord::new(3, 4);
    assert!(should_place(None, here));
    assert!(should_place(Some(TileCoord::new(3, 5)), here));
    assert!(!should_place(Some(here), here));
}

#[test]
fn a_group_moves_as_one() {
    let group = vec![TileCoord::new(0, 0), TileCoord::new(i32::MAX, 1), TileCoord::new(-2, 7)];
    assert_eq!(
        moved_group(&group, TileCoord::new(1, -1)),
        vec![TileCoord::new(1, -1), TileCoord::new(i32::MAX, 1), TileCoord::new(-1, 6)]
    );
}

#[test]
fn maps_are_listed_newest_first() {
    let entry = |time: u64, name: &str| (MapInfo { tile_count: 1, save_time: time }, name.to_string());
    let sorted = sort_maps(vec![
        entry(5, "b"),
        entry(9, "old"),
        entry(5, "c"),
        entry(1, "z"),
        entry(5, "a"),
        entry(9, "old"),
        entry(7, ""),
    ]);
    let names: Vec<(u64, &str)> = sorted.iter().map(|(i, n)| (i.save_time, n.as_str())).collect();
    assert_eq!(
        names,
        vec![(9, "old"), (9, "old"), (7, ""), (5, "c"), (5, "b"), (5, "a"), (1, "z")]
    );
    assert!(sort_maps(vec![]).is_empty());
    assert!(comes_before(&entry(2, "a"), &entry(1, "z")));
    assert!(comes_before(&entry(1, "z"), &entry(1, "a")));
    assert!(!comes_before(&entry(1, "a"), &entry(1, "a")));
}

#[test]
fn the_crash_message_names_the_report() {
    let mut message = String::from(">");
    write_msg(&mut message, "/tmp/report.txt");
    let expected = format!(
        ">{}{}{}{}{}{}{}{}{}",
        "Well, this is embarrassing.\n\n",
        "automancy had a problem and crashed. To help us diagnose the problem you can send us a crash report.\n\n",
        "We have generated a report file at\nfile:///tmp/report.txt\n\nSubmit an issue or tag us on Fedi/Discord and include the report as an attachment.\n\n",
        "- Git: https://github.com/automancy/automancy\n",
        "- Fedi(Mastodon): https://gamedev.lgbt/@automancy\n",
        "- Discord: https://discord.gg/ee9XebxNaa\n",
        "\nAlternatively, send an email to the main developer Madeline Sparkles (madeline@mouse.lgbt) directly.\n\n",
        "We take privacy seriously, and do not perform any automated error collection. In order to improve the software, we rely on people to submit reports.\n\n",
        "Thank you kindly!\n",
    );
    assert_eq!(message, expected);
}
