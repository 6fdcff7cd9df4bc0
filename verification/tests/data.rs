use automancy::coord::TileCoord;
use automancy::data::{copy_ids, Data, DataMap, IdSet};
use automancy::interner::Interned;
use automancy::inventory::Inventory;
use automancy::ordered_map::OrderedMap;

fn key(index: u32) -> Interned {
    Interned { index }
}

#[test]
fn a_store_holds_one_value_per_key() {
    let mut data = DataMap::new();
    data.set(key(3), Data::Amount(1));
    data.set(key(1), Data::Bool(true));
    data.set(key(3), Data::Amount(2));
    assert_eq!(data.len(), 2);
    assert_eq!(data.get(key(3)).unwrap().as_amount(), Some(2));
    assert_eq!(data.key_at(0), key(1));
    assert_eq!(data.key_at(1), key(3));
    assert_eq!(data.value_at(0).as_bool(), Some(true));
    assert!(data.contains_key(key(1)));
    assert!(!data.contains_key(key(2)));
}

#[test]
fn remove_hands_out_what_was_there() {
    let mut data = DataMap::new();
    data.set(key(1), Data::Coord(TileCoord::new(4, 5)));
    assert!(data.remove(key(2)).is_none());
    let out = data.remove(key(1)).unwrap();
    assert_eq!(out.into_coord(), Some(TileCoord::new(4, 5)));
    assert!(data.remove(key(1)).is_none());
    assert_eq!(data.len(), 0);
}

#[test]
fn each_kind_of_value_is_read_as_its_own_kind_only() {
    let amount = Data::Amount(5);
    assert_eq!(amount.as_amount(), Some(5));
    assert_eq!(amount.as_id(), None);
    assert_eq!(amount.as_coord(), None);
    assert_eq!(amount.as_bool(), None);
    assert!(amount.as_inventory().is_none());
    assert_eq!(Data::Id(key(7)).as_id(), Some(key(7)));
    assert_eq!(Data::Id(key(7)).into_id(), Some(key(7)));
    assert_eq!(Data::Bool(false).into_bool(), Some(false));
    assert_eq!(Data::Bool(false).into_amount(), None);
    assert_eq!(Data::Amount(0).into_bool(), None);
    let mut inventory = Inventory::new();
    inventory.add(key(1), 2);
    let value = Data::Inventory(inventory);
    assert_eq!(value.as_inventory().unwrap().get(key(1)), 2);
    assert_eq!(value.into_inventory().unwrap().get(key(1)), 2);
    assert!(Data::VecId(vec![key(1)]).into_inventory().is_none());
}

#[test]
fn duplicate_is_a_deep_copy() {
    let mut inventory = Inventory::new();
    inventory.add(key(1), 2);
    let mut data = DataMap::new();
    data.set(key(0), Data::Inventory(inventory));
    data.set(key(5), Data::VecId(vec![key(9), key(8), key(9)]));
    let mut set = IdSet::new();
    set.insert(key(4));
    data.set(key(6), Data::SetId(set));
    let copy = data.duplicate();
    data.remove(key(0));
    assert_eq!(copy.len(), 3);
    assert_eq!(copy.get(key(0)).unwrap().as_inventory().unwrap().get(key(1)), 2);
    match copy.get(key(5)).unwrap() {
        Data::VecId(ids) => assert_eq!(ids, &vec![key(9), key(8), key(9)]),
        _ => panic!("the list is kept as a list"),
    }
    match copy.get(key(6)).unwrap() {
        Data::SetId(ids) => assert!(ids.contains(key(4)) && ids.len() == 1),
        _ => panic!("the set is kept as a set"),
    }
    assert_eq!(copy_ids(&vec![key(2), key(1)]), vec![key(2), key(1)]);
}

#[test]
fn a_set_holds_each_member_once() {
    let mut set = IdSet::new();
    assert!(set.insert(key(5)));
    assert!(set.insert(key(2)));
    assert!(!set.insert(key(5)));
    assert_eq!(set.len(), 2);
    assert_eq!(set.member_at(0), key(2));
    assert_eq!(set.member_at(1), key(5));
    assert!(set.contains(key(2)));
    assert!(set.remove(key(2)));
    assert!(!set.remove(key(2)));
    assert!(!set.contains(key(2)));
    let copy = set.duplicate();
    assert!(copy.contains(key(5)));
}

#[test]
fn an_ordered_map_keeps_its_keys_in_order() {
    let mut map: OrderedMap<TileCoord, u8> = OrderedMap::new();
    let coords = [(3, 1), (-2, 9), (3, -4), (0, 0), (-2, -9), (i32::MIN, 0), (i32::MAX, i32::MAX)];
    for (i, (q, r)) in coords.iter().enumerate() {
        assert_eq!(map.insert(TileCoord::new(*q, *r), i as u8), None);
    }
    let keys: Vec<(i32, i32)> = (0..map.len()).map(|i| map.key_at(i)).map(|c| (c.q, c.r)).collect();
    assert_eq!(
        keys,
        vec![(i32::MIN, 0), (-2, -9), (-2, 9), (0, 0), (3, -4), (3, 1), (i32::MAX, i32::MAX)]
    );
    assert_eq!(map.insert(TileCoord::new(0, 0), 99), Some(3));
    assert_eq!(map.get(TileCoord::new(0, 0)), Some(&99));
    assert_eq!(map.index_of(TileCoord::new(3, -4)), Some(4));
    assert_eq!(map.search(TileCoord::new(1, 1)), (false, 4));
    assert_eq!(map.replace_at(4, 7), 2);
    *map.value_at_mut(4) += 1;
    assert_eq!(*map.value_at(4), 8);
    assert_eq!(map.remove(TileCoord::new(3, -4)), Some(8));
    assert_eq!(map.remove(TileCoord::new(3, -4)), None);
    assert!(!map.contains_key(TileCoord::new(3, -4)));
    assert_eq!(map.len(), 6);
    let mut fresh: OrderedMap<TileCoord, u8> = OrderedMap::new();
    fresh.push_last(TileCoord::new(0, 0), 1);
    fresh.push_last(TileCoord::new(0, 1), 2);
    assert_eq!(fresh.get(TileCoord::new(0, 1)), Some(&2));
    let copy = fresh.duplicate();
    assert_eq!(copy.len(), 2);
}

#[test]
fn a_new_set_has_no_members() {
    let set = IdSet::new();
    assert_eq!(set.len(), 0);
    assert!(!set.contains(key(0)));
}
