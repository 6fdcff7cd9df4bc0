use automancy::interner::Interned;
use automancy::inventory::{Inventory, Item, ItemStack, AMOUNT_CAP};

fn item(index: u32) -> Interned {
    Interned { index }
}

fn stack(index: u32, amount: u32) -> ItemStack {
    ItemStack { item: Item { id: item(index) }, amount }
}

fn stacks_of(inventory: &Inventory) -> Vec<(u32, u32)> {
    (0..inventory.len()).map(|i| inventory.stack_at(i)).map(|(id, n)| (id.index, n)).collect()
}

#[test]
fn a_new_inventory_holds_nothing() {
    let inventory = Inventory::new();
    assert!(inventory.is_empty());
    assert_eq!(inventory.len(), 0);
    assert_eq!(inventory.get(item(3)), 0);
    assert!(inventory.contains(item(3), 0));
    assert!(!inventory.contains(item(3), 1));
}

#[test]
fn add_sums_up() {
    let mut inventory = Inventory::new();
    inventory.add(item(2), 5);
    inventory.add(item(1), 7);
    inventory.add(item(2), 6);
    assert_eq!(inventory.get(item(2)), 11);
    assert_eq!(inventory.get(item(1)), 7);
    assert_eq!(stacks_of(&inventory), vec![(1, 7), (2, 11)]);
}

#[test]
fn add_stops_at_the_cap() {
    let mut inventory = Inventory::new();
    inventory.add(item(0), AMOUNT_CAP - 1);
    inventory.add(item(0), 5);
    assert_eq!(inventory.get(item(0)), AMOUNT_CAP);
    assert_eq!(AMOUNT_CAP, u32::MAX);
}

#[test]
fn adding_nothing_writes_nothing_down() {
    let mut inventory = Inventory::new();
    inventory.add(item(4), 0);
    assert!(inventory.is_empty());
}

#[test]
fn add_then_take_leaves_the_inventory_as_it_was() {
    let mut inventory = Inventory::new();
    inventory.add(item(1), 10);
    inventory.add(item(5), 3);
    let before = stacks_of(&inventory);
    for (k, m) in [(1u32, 4u32), (5, 1), (9, 12), (1, 0)] {
        inventory.add(item(k), m);
        let taken = inventory.take(item(k), m);
        if m > 0 {
            assert_eq!(taken, Some(m));
        }
        assert_eq!(stacks_of(&inventory), before);
    }
}

#[test]
fn take_hands_out_what_is_there() {
    let mut inventory = Inventory::new();
    inventory.add(item(1), 10);
    assert_eq!(inventory.take(item(1), 4), Some(4));
    assert_eq!(inventory.get(item(1)), 6);
    assert_eq!(inventory.take(item(1), 100), Some(6));
    assert_eq!(inventory.get(item(1)), 0);
    assert!(inventory.is_empty());
    assert_eq!(inventory.take(item(1), 1), None);
    assert_eq!(inventory.take(item(7), 1), None);
}

#[test]
fn insert_sets_the_count() {
    let mut inventory = Inventory::new();
    inventory.insert(item(3), 9);
    inventory.insert(item(3), 2);
    assert_eq!(inventory.get(item(3)), 2);
    inventory.insert(item(3), 0);
    assert!(inventory.is_empty());
}

#[test]
fn try_take_all_takes_everything_or_nothing() {
    let mut inventory = Inventory::new();
    inventory.add(item(1), 5);
    inventory.add(item(2), 1);
    assert!(!inventory.try_take_all(&vec![stack(1, 3), stack(2, 2)]));
    assert_eq!(stacks_of(&inventory), vec![(1, 5), (2, 1)]);
    assert!(!inventory.try_take_all(&vec![stack(1, 3), stack(1, 3)]));
    assert_eq!(stacks_of(&inventory), vec![(1, 5), (2, 1)]);
    assert!(inventory.try_take_all(&vec![stack(1, 3), stack(2, 1), stack(1, 2)]));
    assert!(inventory.is_empty());
    assert!(inventory.try_take_all(&vec![]));
    assert!(inventory.try_take_all(&vec![stack(8, 0)]));
}

#[test]
fn add_all_adds_each_stack() {
    let mut inventory = Inventory::new();
    inventory.add_all(&vec![stack(3, 1), stack(1, 2), stack(3, 4)]);
    assert_eq!(stacks_of(&inventory), vec![(1, 2), (3, 5)]);
}

#[test]
fn duplicate_is_independent() {
    let mut inventory = Inventory::new();
    inventory.add(item(1), 5);
    let copy = inventory.duplicate();
    inventory.add(item(1), 1);
    assert_eq!(copy.get(item(1)), 5);
    assert_eq!(inventory.get(item(1)), 6);
}
