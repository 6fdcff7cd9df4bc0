use automancy::coord::TileCoord;
use automancy::data::Data;
use automancy::id::{Id, IdError};
use automancy::ids::GuiIds;
use automancy::interner::{InternError, Interner};
use automancy::inventory::{Item, ItemRaw, ItemStack};
use automancy::registry::{id_eq_or_of_tag, DataRaw, Registry, ResourceManager, TagRaw, TileRaw};
use automancy::script::{InstructionsRaw, ItemStackRaw, ScriptRaw};
use automancy::tile_entity::DataIds;

fn manager() -> ResourceManager {
    let mut interner = Interner::new();
    let ids = DataIds::new(&mut interner).unwrap();
    let gui = GuiIds::new(&mut interner).unwrap();
    let none = interner.intern(&Id::none()).unwrap();
    ResourceManager::new(interner, Registry::new(none, ids, gui))
}

fn raw_stack(id: &str, amount: u32) -> ItemStackRaw {
    ItemStackRaw { id: id.to_string(), amount }
}

#[test]
fn load_item_interns_and_registers() {
    let mut m = manager();
    let before = m.interner.len();
    let iron = m.load_item(&ItemRaw { id: "automancy:iron".to_string() }).unwrap();
    assert_eq!(m.interner.len(), before + 1);
    assert_eq!(m.interner.resolve_text(iron), Some("automancy:iron".to_string()));
    assert_eq!(m.registry.item(iron), Some(Item { id: iron }));
    let again = m.load_item(&ItemRaw { id: "automancy:iron".to_string() }).unwrap();
    assert_eq!(again, iron);
    assert_eq!(m.interner.len(), before + 1);
}

#[test]
fn a_malformed_identifier_is_a_configuration_error() {
    let mut m = manager();
    let before = m.interner.len();
    assert_eq!(
        m.load_item(&ItemRaw { id: "iron".to_string() }),
        Err(InternError::BadId(IdError::MissingSeparator))
    );
    let tag = TagRaw {
        id: "automancy:metal".to_string(),
        entries: vec!["automancy:iron".to_string(), "a:b:c".to_string()],
    };
    assert_eq!(m.load_tag(&tag), Err(InternError::BadId(IdError::SeparatorInName)));
    // What was interned before the error stays interned, but the tag is not
    // put into the configuration.
    assert_eq!(m.interner.len(), before + 2);
    let metal = m.interner.lookup_text("automancy:metal").unwrap();
    let iron = m.interner.lookup_text("automancy:iron").unwrap();
    assert!(!id_eq_or_of_tag(&m.registry, iron, metal));
}

#[test]
fn load_tag_registers_the_entries() {
    let mut m = manager();
    let iron = m.load_item(&ItemRaw { id: "automancy:iron".to_string() }).unwrap();
    let wood = m.load_item(&ItemRaw { id: "automancy:wood".to_string() }).unwrap();
    let tag = TagRaw {
        id: "automancy:metal".to_string(),
        entries: vec!["automancy:iron".to_string(), "automancy:gold".to_string()],
    };
    let metal = m.load_tag(&tag).unwrap();
    assert!(id_eq_or_of_tag(&m.registry, iron, metal));
    assert!(!id_eq_or_of_tag(&m.registry, wood, metal));
    let gold = m.interner.lookup_text("automancy:gold").unwrap();
    assert!(id_eq_or_of_tag(&m.registry, gold, metal));
}

#[test]
fn load_script_names_every_stack() {
    let mut m = manager();
    let raw = ScriptRaw {
        id: "automancy:smelt".to_string(),
        instructions: InstructionsRaw {
            inputs: Some(vec![raw_stack("automancy:ore", 2), raw_stack("automancy:coal", 1)]),
            outputs: vec![raw_stack("automancy:iron", 1)],
        },
    };
    let id = m.load_script(&raw).unwrap();
    let ore = m.interner.lookup_text("automancy:ore").unwrap();
    let coal = m.interner.lookup_text("automancy:coal").unwrap();
    let iron = m.interner.lookup_text("automancy:iron").unwrap();
    assert!(id.index < ore.index && ore.index < coal.index && coal.index < iron.index);
    let script = m.registry.script_table().get(id).unwrap();
    assert_eq!(script.id, id);
    assert_eq!(
        script.instructions.inputs,
        Some(vec![
            ItemStack { item: Item { id: ore }, amount: 2 },
            ItemStack { item: Item { id: coal }, amount: 1 }
        ])
    );
    assert_eq!(script.instructions.outputs, vec![ItemStack { item: Item { id: iron }, amount: 1 }]);
    let plain = ScriptRaw {
        id: "automancy:mine".to_string(),
        instructions: InstructionsRaw { inputs: None, outputs: vec![raw_stack("automancy:ore", 1)] },
    };
    let mine = m.load_script(&plain).unwrap();
    assert_eq!(m.registry.script_table().get(mine).unwrap().instructions.inputs, None);
}

#[test]
fn load_tile_names_its_data() {
    let mut m = manager();
    let raw = TileRaw {
        id: "automancy:linker".to_string(),
        function: Some("automancy:link_function".to_string()),
        model: "automancy:linker_model".to_string(),
        data: vec![
            ("automancy:linked".to_string(), DataRaw::Bool(true)),
            ("automancy:max".to_string(), DataRaw::Amount(64)),
            ("automancy:default".to_string(), DataRaw::Id("automancy:iron".to_string())),
            ("automancy:at".to_string(), DataRaw::Coord(TileCoord::new(1, 2))),
            (
                "automancy:start".to_string(),
                DataRaw::Inventory(vec![raw_stack("automancy:iron", 3), raw_stack("automancy:iron", 4)]),
            ),
            (
                "automancy:order".to_string(),
                DataRaw::VecId(vec!["automancy:b".to_string(), "automancy:a".to_string()]),
            ),
            (
                "automancy:kinds".to_string(),
                DataRaw::SetId(vec!["automancy:b".to_string(), "automancy:b".to_string()]),
            ),
            ("automancy:max".to_string(), DataRaw::Amount(65)),
        ],
    };
    let id = m.load_tile(&raw).unwrap();
    assert!(m.registry.has_tile(id));
    assert!(m.registry.can_link(id));
    let look = |text: &str| m.interner.lookup_text(text).unwrap();
    let tile = m.registry.tile(id).unwrap();
    assert_eq!(tile.model, look("automancy:linker_model"));
    assert_eq!(tile.function, Some(look("automancy:link_function")));
    assert_eq!(tile.data.len(), 7);
    assert_eq!(tile.data.get(look("automancy:max")).unwrap().as_amount(), Some(65));
    assert_eq!(tile.data.get(look("automancy:default")).unwrap().as_id(), Some(look("automancy:iron")));
    assert_eq!(tile.data.get(look("automancy:at")).unwrap().as_coord(), Some(TileCoord::new(1, 2)));
    let start = tile.data.get(look("automancy:start")).unwrap().as_inventory().unwrap();
    assert_eq!(start.get(look("automancy:iron")), 7);
    match tile.data.get(look("automancy:order")).unwrap() {
        Data::VecId(ids) => assert_eq!(ids, &vec![look("automancy:b"), look("automancy:a")]),
        _ => panic!("a list stays a list"),
    }
    match tile.data.get(look("automancy:kinds")).unwrap() {
        Data::SetId(ids) => {
            assert_eq!(ids.len(), 1);
            assert!(ids.contains(look("automancy:b")));
        }
        _ => panic!("a set stays a set"),
    }
}
