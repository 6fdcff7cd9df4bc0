use automancy::data::{Data, DataMap, IdSet};
use automancy::id::Id;
use automancy::ids::GuiIds;
use automancy::interner::{Interned, Interner};
use automancy::inventory::Item;
use automancy::ordered_map::OrderedMap;
use automancy::registry::{id_eq_or_of_tag, Registry, ResourceManager, Tile};
use automancy::script::ScriptTable;
use automancy::tile_entity::DataIds;

fn intern(interner: &mut Interner, text: &str) -> Interned {
    interner.intern(&Id::from_str(text).unwrap()).unwrap()
}

fn set_of(ids: &[Interned]) -> IdSet {
    let mut set = IdSet::new();
    for id in ids {
        set.insert(*id);
    }
    set
}

struct Names {
    iron: Interned,
    gold: Interned,
    wood: Interned,
    metal: Interned,
    material: Interned,
    loop_a: Interned,
    loop_b: Interned,
    linker: Interned,
    plain: Interned,
}

fn manager() -> (ResourceManager, Names) {
    let mut interner = Interner::new();
    let ids = DataIds::new(&mut interner).unwrap();
    let gui = GuiIds::new(&mut interner).unwrap();
    let none = interner.intern(&Id::none()).unwrap();
    let names = Names {
        iron: intern(&mut interner, "automancy:iron"),
        gold: intern(&mut interner, "automancy:gold"),
        wood: intern(&mut interner, "automancy:wood"),
        metal: intern(&mut interner, "automancy:metal"),
        material: intern(&mut interner, "automancy:material"),
        loop_a: intern(&mut interner, "automancy:loop_a"),
        loop_b: intern(&mut interner, "automancy:loop_b"),
        linker: intern(&mut interner, "automancy:linker"),
        plain: intern(&mut interner, "automancy:plain"),
    };
    let mut registry = Registry::new(none, ids, gui);
    registry.add_item(names.wood);
    registry.add_item(names.iron);
    registry.add_item(names.gold);
    registry.add_tag(names.metal, set_of(&[names.iron, names.gold]));
    registry.add_tag(names.material, set_of(&[names.metal, names.wood]));
    registry.add_tag(names.loop_a, set_of(&[names.loop_b]));
    registry.add_tag(names.loop_b, set_of(&[names.loop_a, names.gold]));
    let mut data = DataMap::new();
    data.set(ids.linked, Data::Bool(true));
    registry.add_tile(names.linker, Tile { model: names.linker, function: None, data });
    let mut data = DataMap::new();
    data.set(ids.linked, Data::Bool(false));
    registry.add_tile(names.plain, Tile { model: names.plain, function: Some(names.iron), data });
    (ResourceManager::new(interner, registry), names)
}

#[test]
fn an_item_matches_itself() {
    let (m, n) = manager();
    assert!(id_eq_or_of_tag(&m.registry, n.iron, n.iron));
    assert!(id_eq_or_of_tag(&m.registry, n.metal, n.metal));
    assert!(!id_eq_or_of_tag(&m.registry, n.iron, n.gold));
}

#[test]
fn an_item_matches_the_tags_it_belongs_to() {
    let (m, n) = manager();
    assert!(id_eq_or_of_tag(&m.registry, n.iron, n.metal));
    assert!(id_eq_or_of_tag(&m.registry, n.gold, n.metal));
    assert!(!id_eq_or_of_tag(&m.registry, n.wood, n.metal));
    assert!(!id_eq_or_of_tag(&m.registry, n.metal, n.iron));
}

#[test]
fn tags_inside_tags_are_followed() {
    let (m, n) = manager();
    assert!(id_eq_or_of_tag(&m.registry, n.iron, n.material));
    assert!(id_eq_or_of_tag(&m.registry, n.wood, n.material));
    assert!(id_eq_or_of_tag(&m.registry, n.metal, n.material));
}

#[test]
fn tags_that_name_each_other_do_not_hang() {
    let (m, n) = manager();
    assert!(id_eq_or_of_tag(&m.registry, n.gold, n.loop_a));
    assert!(id_eq_or_of_tag(&m.registry, n.gold, n.loop_b));
    assert!(!id_eq_or_of_tag(&m.registry, n.iron, n.loop_a));
    assert!(id_eq_or_of_tag(&m.registry, n.loop_a, n.loop_b));
}

#[test]
fn get_items_of_an_item_is_the_item() {
    let (m, n) = manager();
    let mut cache: OrderedMap<Interned, Vec<Item>> = OrderedMap::new();
    assert_eq!(m.get_items(n.gold, &mut cache), vec![Item { id: n.gold }]);
    assert!(cache.is_empty());
}

#[test]
fn get_items_of_a_tag_are_its_items_in_order() {
    let (m, n) = manager();
    let mut cache: OrderedMap<Interned, Vec<Item>> = OrderedMap::new();
    assert_eq!(
        m.get_items(n.metal, &mut cache),
        vec![Item { id: n.iron }, Item { id: n.gold }]
    );
    assert_eq!(
        m.get_items(n.material, &mut cache),
        vec![Item { id: n.iron }, Item { id: n.gold }, Item { id: n.wood }]
    );
    assert_eq!(cache.len(), 2);
    assert_eq!(cache.get(n.metal), Some(&vec![Item { id: n.iron }, Item { id: n.gold }]));
    assert_eq!(
        m.get_items(n.metal, &mut cache),
        vec![Item { id: n.iron }, Item { id: n.gold }]
    );
    assert_eq!(cache.len(), 2);
    assert_eq!(m.get_items(n.linker, &mut cache), vec![]);
    assert_eq!(cache.len(), 3);
}

#[test]
fn only_types_that_say_so_can_be_linked() {
    let (m, n) = manager();
    assert!(m.registry.can_link(n.linker));
    assert!(!m.registry.can_link(n.plain));
    assert!(!m.registry.can_link(n.iron));
    assert!(m.registry.has_tile(n.plain));
    assert!(!m.registry.has_tile(n.iron));
    assert_eq!(m.registry.tile(n.plain).unwrap().function, Some(n.iron));
    assert_eq!(m.registry.item(n.iron), Some(Item { id: n.iron }));
    assert_eq!(m.registry.item(n.metal), None);
}

#[test]
fn a_new_script_table_has_no_scripts() {
    let table = ScriptTable::new();
    assert_eq!(table.len(), 0);
    assert!(table.get(Interned { index: 0 }).is_none());
}
