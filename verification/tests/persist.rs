use automancy::coord::TileCoord;
use automancy::data::{Data, DataMap};
use automancy::format::{decode_map, encode_map, SavedMap, SavedTile};
use automancy::id::Id;
use automancy::ids::GuiIds;
use automancy::interner::{Interned, Interner};
use automancy::inventory::Inventory;
use automancy::map::TileMap;
use automancy::map::MapInfo;
use automancy::persist::{
    from_saved, info_of, load, load_plain, map_path, read_info, save, saved_file, to_saved, SaveError,
};
use automancy::registry::{Registry, Tile};
use automancy::script::ItemStackRaw;
use automancy::tile_entity::DataIds;

struct Config {
    interner: Interner,
    registry: Registry,
    ids: DataIds,
    producer: Interned,
    storage: Interned,
    iron: Interned,
    gold: Interned,
    smelt: Interned,
}

fn intern(interner: &mut Interner, text: &str) -> Interned {
    interner.intern(&Id::from_str(text).unwrap()).unwrap()
}

fn tile_type(model: Interned) -> Tile {
    Tile { model, function: None, data: DataMap::new() }
}

fn config(with_producer: bool) -> Config {
    let mut interner = Interner::new();
    let ids = DataIds::new(&mut interner).unwrap();
    let gui = GuiIds::new(&mut interner).unwrap();
    let none = interner.intern(&Id::none()).unwrap();
    let producer = intern(&mut interner, "automancy:producer");
    let storage = intern(&mut interner, "automancy:storage");
    let iron = intern(&mut interner, "automancy:iron");
    let gold = intern(&mut interner, "automancy:gold");
    let smelt = intern(&mut interner, "automancy:smelt");
    let mut registry = Registry::new(none, ids, gui);
    if with_producer {
        registry.add_tile(producer, tile_type(producer));
    }
    registry.add_tile(storage, tile_type(storage));
    registry.add_item(iron);
    registry.add_item(gold);
    Config { interner, registry, ids, producer, storage, iron, gold, smelt }
}

fn sample(c: &Config) -> TileMap {
    let mut map = TileMap::new_empty("sample".to_string());
    let mut buffer = Inventory::new();
    buffer.add(c.gold, 7);
    buffer.add(c.iron, 40);
    let mut data = DataMap::new();
    data.set(c.ids.buffer, Data::Inventory(buffer));
    data.set(c.ids.target, Data::Coord(TileCoord::right()));
    data.set(c.ids.script, Data::Id(c.smelt));
    map.insert(TileCoord::new(0, 0), c.producer, 2, data);
    let mut data = DataMap::new();
    data.set(c.ids.link, Data::Coord(TileCoord::new(-40, 17)));
    map.insert(TileCoord::new(1, 0), c.storage, 0, data);
    map.insert(TileCoord::new(-3, 5), c.storage, 9, DataMap::new());
    map
}

fn assert_same_tile(c: &Config, a: &TileMap, b: &TileMap, coord: TileCoord) {
    let x = a.get(coord).unwrap();
    let y = b.get(coord).unwrap();
    assert_eq!(x.id(), y.id());
    assert_eq!(x.coord(), y.coord());
    assert_eq!(x.modifier(), y.modifier());
    assert_eq!(x.target(&c.ids), y.target(&c.ids));
    assert_eq!(x.link(&c.ids), y.link(&c.ids));
    assert_eq!(x.script_id(&c.ids), y.script_id(&c.ids));
    let (p, q) = (x.buffer(&c.ids), y.buffer(&c.ids));
    assert_eq!(p.len(), q.len());
    for i in 0..p.len() {
        assert_eq!(p.stack_at(i), q.stack_at(i));
    }
}

#[test]
fn the_bytes_of_a_small_map() {
    let saved = SavedMap {
        save_time: 0x0102030405060708,
        tiles: vec![SavedTile {
            coord: TileCoord::new(0, -1),
            id: "a:b".to_string(),
            modifier: 1,
            inventory: vec![ItemStackRaw { id: "a:\u{e9}".to_string(), amount: 258 }],
            target: Some(TileCoord::new(1, 0)),
            link: None,
            script: Some("s:t".to_string()),
        }],
    };
    let bytes = encode_map(&saved).unwrap();
    let expected: Vec<u8> = vec![
        0x41, 0x4D, 0x41, 0x50, // the start of every saved map
        1, 0, 0, 0, // version
        8, 7, 6, 5, 4, 3, 2, 1, // time of saving
        1, 0, 0, 0, // one tile
        0, 0, 0, 0x80, // q = 0
        0xFF, 0xFF, 0xFF, 0x7F, // r = -1
        3, 0, 0, 0, b'a', b':', b'b', // type
        1, 0, 0, 0, // variant
        1, 0, 0, 0, // one stack
        4, 0, 0, 0, b'a', b':', 0xC3, 0xA9, // item
        2, 1, 0, 0, // amount
        1, 1, 0, 0, 0x80, 0, 0, 0, 0x80, // target
        0, // no link
        1, 3, 0, 0, 0, b's', b':', b't', // script
    ];
    assert_eq!(bytes, expected);
}

#[test]
fn decode_reads_back_what_encode_wrote() {
    let c = config(true);
    let saved = to_saved(&sample(&c), &c.interner, &c.ids, 77).unwrap();
    let bytes = encode_map(&saved).unwrap();
    let back = decode_map(&bytes).unwrap();
    assert_eq!(back.save_time, 77);
    assert_eq!(back.tiles.len(), 3);
    for (a, b) in saved.tiles.iter().zip(back.tiles.iter()) {
        assert_eq!(a.coord, b.coord);
        assert_eq!(a.id, b.id);
        assert_eq!(a.modifier, b.modifier);
        assert_eq!(a.target, b.target);
        assert_eq!(a.link, b.link);
        assert_eq!(a.script, b.script);
        assert_eq!(a.inventory.len(), b.inventory.len());
        for (s, t) in a.inventory.iter().zip(b.inventory.iter()) {
            assert_eq!(s.id, t.id);
            assert_eq!(s.amount, t.amount);
        }
    }
    assert_eq!(encode_map(&back).unwrap(), bytes);
}

#[test]
fn decode_rejects_what_is_no_saved_map() {
    let c = config(true);
    let bytes = encode_map(&to_saved(&sample(&c), &c.interner, &c.ids, 77).unwrap()).unwrap();
    assert!(decode_map(&[]).is_none());
    assert!(decode_map(b"AMA").is_none());
    assert!(decode_map(b"BMAP\x01\0\0\0\0\0\0\0\0\0\0\0\0\0\0\0").is_none());
    assert!(decode_map(b"AMAP\x02\0\0\0\0\0\0\0\0\0\0\0\0\0\0\0").is_none());
    assert!(decode_map(b"AMAP\x01\0\0\0\0\0\0\0\0\0\0\0\0\0\0\0").is_some());
    assert!(decode_map(b"AMAP\x01\0\0\0\0\0\0\0\0\0\0\0\0\0\0\0\0").is_none());
    assert!(decode_map(b"AMAP\x01\0\0\0\0\0\0\0\0\0\0\0\x01\0\0\0").is_none());
    assert!(decode_map(b"AMAP\x01\0\0\0\0\0\0\0").is_none());
    for cut in 0..bytes.len() {
        assert!(decode_map(&bytes[..cut]).is_none());
    }
    let mut longer = bytes.clone();
    longer.push(0);
    assert!(decode_map(&longer).is_none());
    let mut bad_text = bytes.clone();
    let at = bytes.windows(4).position(|w| w == b"auto").unwrap();
    bad_text[at] = 0xFF;
    assert!(decode_map(&bad_text).is_none());
}

#[test]
fn the_saved_form_writes_identifiers_out() {
    let c = config(true);
    let saved = to_saved(&sample(&c), &c.interner, &c.ids, 77).unwrap();
    let tile = &saved.tiles[1];
    assert_eq!(tile.coord, TileCoord::new(0, 0));
    assert_eq!(tile.id, "automancy:producer");
    assert_eq!(tile.modifier, 2);
    assert_eq!(tile.target, Some(TileCoord::right()));
    assert_eq!(tile.link, None);
    assert_eq!(tile.script.as_deref(), Some("automancy:smelt"));
    let stacks: Vec<(&str, u32)> =
        tile.inventory.iter().map(|s| (s.id.as_str(), s.amount)).collect();
    assert_eq!(stacks, vec![("automancy:iron", 40), ("automancy:gold", 7)]);
    assert_eq!(saved.tiles[0].coord, TileCoord::new(-3, 5));
    assert_eq!(saved.tiles[2].link, Some(TileCoord::new(-40, 17)));
}

#[test]
fn saving_and_loading_gives_the_map_back() {
    let c = config(true);
    let map = sample(&c);
    let (file, info) = save(&map, &c.interner, &c.ids, 1234).unwrap();
    assert_eq!(info.tile_count, 3);
    assert_eq!(info.save_time, 1234);
    let loaded = load(Some(&file), "sample".to_string(), &c.interner, &c.registry);
    assert_eq!(loaded.name(), "sample");
    assert_eq!(loaded.len(), 3);
    for coord in [TileCoord::new(0, 0), TileCoord::new(1, 0), TileCoord::new(-3, 5)] {
        assert_same_tile(&c, &map, &loaded, coord);
    }
    let (again, _) = save(&loaded, &c.interner, &c.ids, 1234).unwrap();
    assert_eq!(again, file);
}

#[test]
fn the_file_is_compressed() {
    let c = config(true);
    let map = sample(&c);
    let (file, _) = save(&map, &c.interner, &c.ids, 0).unwrap();
    let plain = encode_map(&to_saved(&map, &c.interner, &c.ids, 0).unwrap()).unwrap();
    assert_eq!(&file[..4], &[0x28, 0xB5, 0x2F, 0xFD]);
    assert_ne!(file, plain);
    assert!(decode_map(&file).is_none());
    // What is not compressed is no saved map either.
    let loaded = load(Some(&plain), "x".to_string(), &c.interner, &c.registry);
    assert_eq!(loaded.len(), 0);
}

#[test]
fn tiles_of_unknown_types_are_dropped_on_load() {
    let c = config(true);
    let map = sample(&c);
    let (file, _) = save(&map, &c.interner, &c.ids, 0).unwrap();
    let later = config(false);
    let loaded = load(Some(&file), "sample".to_string(), &later.interner, &later.registry);
    assert_eq!(loaded.len(), 2);
    assert!(loaded.get(TileCoord::new(0, 0)).is_none());
    assert_same_tile(&later, &map, &loaded, TileCoord::new(1, 0));
    assert_same_tile(&later, &map, &loaded, TileCoord::new(-3, 5));
}

#[test]
fn identifiers_that_the_interner_lost_are_dropped_on_load() {
    let c = config(true);
    let (file, _) = save(&sample(&c), &c.interner, &c.ids, 0).unwrap();
    let mut interner = Interner::new();
    let ids = DataIds::new(&mut interner).unwrap();
    let gui = GuiIds::new(&mut interner).unwrap();
    let none = interner.intern(&Id::none()).unwrap();
    let producer = intern(&mut interner, "automancy:producer");
    let gold = intern(&mut interner, "automancy:gold");
    let mut registry = Registry::new(none, ids, gui);
    registry.add_tile(producer, tile_type(producer));
    let loaded = load(Some(&file), "sample".to_string(), &interner, &registry);
    assert_eq!(loaded.len(), 1);
    let tile = loaded.get(TileCoord::new(0, 0)).unwrap();
    assert_eq!(tile.id(), producer);
    assert_eq!(tile.script_id(&ids), None);
    let buffer = tile.buffer(&ids);
    assert_eq!(buffer.len(), 1);
    assert_eq!(buffer.get(gold), 7);
}

#[test]
fn a_missing_or_corrupt_file_loads_as_an_empty_map() {
    let c = config(true);
    let absent = load(None, "new".to_string(), &c.interner, &c.registry);
    assert_eq!(absent.len(), 0);
    assert_eq!(absent.name(), "new");
    let garbage = load(Some(b"not a map"), "new".to_string(), &c.interner, &c.registry);
    assert_eq!(garbage.len(), 0);
    let (mut file, _) = save(&sample(&c), &c.interner, &c.ids, 0).unwrap();
    file.truncate(file.len() / 2);
    let cut = load(Some(&file), "new".to_string(), &c.interner, &c.registry);
    assert_eq!(cut.len(), 0);
    let empty = load(Some(&[]), "new".to_string(), &c.interner, &c.registry);
    assert_eq!(empty.len(), 0);
}

#[test]
fn a_map_with_an_unknown_identifier_cannot_be_saved() {
    let c = config(true);
    let mut map = TileMap::new_empty("bad".to_string());
    map.insert(TileCoord::new(0, 0), Interned { index: 9999 }, 0, DataMap::new());
    assert_eq!(save(&map, &c.interner, &c.ids, 0).err(), Some(SaveError::UnknownId));
    assert!(to_saved(&map, &c.interner, &c.ids, 0).is_none());
}

#[test]
fn loading_puts_later_tiles_over_earlier_ones() {
    let c = config(true);
    let tile = |id: &str, modifier: u32| SavedTile {
        coord: TileCoord::new(4, 4),
        id: id.to_string(),
        modifier,
        inventory: vec![
            ItemStackRaw { id: "automancy:iron".to_string(), amount: 2 },
            ItemStackRaw { id: "automancy:unknown".to_string(), amount: 5 },
            ItemStackRaw { id: "automancy:iron".to_string(), amount: 3 },
        ],
        target: None,
        link: None,
        script: Some("no identifier".to_string()),
    };
    let saved = SavedMap {
        save_time: 0,
        tiles: vec![tile("automancy:producer", 1), tile("automancy:storage", 2), tile("x:y", 3)],
    };
    let map = from_saved(&saved, "m".to_string(), &c.interner, &c.registry);
    assert_eq!(map.len(), 1);
    let loaded = map.get(TileCoord::new(4, 4)).unwrap();
    assert_eq!(loaded.id(), c.storage);
    assert_eq!(loaded.modifier(), 2);
    assert_eq!(loaded.buffer(&c.ids).get(c.iron), 5);
    assert_eq!(loaded.buffer(&c.ids).len(), 1);
    assert_eq!(loaded.script_id(&c.ids), None);
}

#[test]
fn the_file_is_named_after_the_map() {
    assert_eq!(map_path("main"), "map/main.bin");
    assert_eq!(map_path(""), "map/.bin");
    assert_eq!(TileMap::path("main"), "map/main.bin");
}

#[test]
fn a_map_saves_and_loads_itself() {
    let c = config(true);
    let map = sample(&c);
    let (file, info) = map.save(&c.interner, &c.ids, 5).unwrap();
    assert_eq!(info, MapInfo { tile_count: 3, save_time: 5 });
    let loaded = TileMap::load(Some(&file), "sample".to_string(), &c.interner, &c.registry);
    assert_eq!(loaded.len(), 3);
    assert_same_tile(&c, &map, &loaded, TileCoord::new(0, 0));
}

#[test]
fn the_summary_is_read_from_the_file() {
    let c = config(true);
    let (file, info) = save(&sample(&c), &c.interner, &c.ids, 1_700_000_000).unwrap();
    assert_eq!(read_info(&file), Some(info));
    assert_eq!(read_info(&file), Some(MapInfo { tile_count: 3, save_time: 1_700_000_000 }));
    assert_eq!(read_info(b"garbage"), None);
    assert_eq!(read_info(&[]), None);
}

#[test]
fn the_time_of_saving_is_part_of_the_file() {
    let c = config(true);
    let map = sample(&c);
    let (first, _) = save(&map, &c.interner, &c.ids, 1).unwrap();
    let (second, _) = save(&map, &c.interner, &c.ids, 2).unwrap();
    assert_ne!(first, second);
}

#[test]
fn bytes_that_are_not_compressed_load_as_they_are() {
    let c = config(true);
    let map = sample(&c);
    let plain = encode_map(&to_saved(&map, &c.interner, &c.ids, 3).unwrap()).unwrap();
    let loaded = load_plain(Some(&plain), "p".to_string(), &c.interner, &c.registry);
    assert_eq!(loaded.name(), "p");
    assert_eq!(loaded.len(), 3);
    assert_same_tile(&c, &map, &loaded, TileCoord::new(0, 0));
    assert_eq!(load_plain(None, "p".to_string(), &c.interner, &c.registry).len(), 0);
    assert_eq!(load_plain(Some(b"AMAP"), "p".to_string(), &c.interner, &c.registry).len(), 0);
    assert_eq!(info_of(Some(&plain)), Some(MapInfo { tile_count: 3, save_time: 3 }));
    assert_eq!(info_of(Some(b"AMAP")), None);
    assert_eq!(info_of(None), None);
}

#[test]
fn an_error_of_the_compressor_is_an_error_of_saving() {
    let info = MapInfo { tile_count: 2, save_time: 9 };
    assert_eq!(saved_file(Some(vec![1, 2, 3]), info), Ok((vec![1, 2, 3], info)));
    assert_eq!(saved_file(None, info), Err(SaveError::Compression));
}

#[test]
fn the_same_map_at_the_same_time_gives_the_same_file() {
    let c = config(true);
    let (first, info) = save(&sample(&c), &c.interner, &c.ids, 8).unwrap();
    let (second, again) = save(&sample(&c), &c.interner, &c.ids, 8).unwrap();
    assert_eq!(first, second);
    assert_eq!(info, again);
    let plain = encode_map(&to_saved(&sample(&c), &c.interner, &c.ids, 8).unwrap()).unwrap();
    assert_ne!(first, plain);
}
