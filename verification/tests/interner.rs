use automancy::id::{Id, IdError};
use automancy::ids::GuiIds;
use automancy::interner::{plan_intern, InternError, InternPlan, Interned, Interner, TABLE_LIMIT};
use automancy::tile_entity::DataIds;

#[test]
fn interning_gives_handles_in_order() {
    let mut interner = Interner::new();
    assert_eq!(interner.len(), 0);
    let a = interner.intern(&Id::from_str("automancy:a").unwrap()).unwrap();
    let b = interner.intern(&Id::from_str("automancy:b").unwrap()).unwrap();
    assert_eq!(a, Interned { index: 0 });
    assert_eq!(b, Interned { index: 1 });
    assert_eq!(interner.len(), 2);
}

#[test]
fn interning_twice_gives_the_same_handle() {
    let mut interner = Interner::new();
    let id = Id::from_str("automancy:conveyor").unwrap();
    let first = interner.intern(&id).unwrap();
    let other = interner.intern(&Id::from_str("automancy:storage").unwrap()).unwrap();
    let second = interner.intern(&id).unwrap();
    assert_eq!(first, second);
    assert_ne!(first, other);
    assert_eq!(interner.len(), 2);
}

#[test]
fn resolve_gives_back_what_was_interned() {
    let mut interner = Interner::new();
    let id = Id::new("mod".to_string(), "\u{1f600}".to_string()).unwrap();
    let handle = interner.intern(&id).unwrap();
    let back = interner.resolve(handle).unwrap();
    assert!(back.same(&id));
    assert_eq!(interner.resolve_text(handle), Some("mod:\u{1f600}".to_string()));
}

#[test]
fn resolve_of_an_unknown_handle_is_none() {
    let mut interner = Interner::new();
    interner.intern(&Id::none()).unwrap();
    assert!(interner.resolve(Interned { index: 1 }).is_none());
    assert!(interner.resolve(Interned { index: u32::MAX }).is_none());
    assert_eq!(interner.resolve_text(Interned { index: 7 }), None);
}

#[test]
fn get_does_not_intern() {
    let mut interner = Interner::new();
    let id = Id::from_str("automancy:conveyor").unwrap();
    assert_eq!(interner.get(&id), None);
    assert_eq!(interner.len(), 0);
    let handle = interner.intern(&id).unwrap();
    assert_eq!(interner.get(&id), Some(handle));
    assert_eq!(interner.lookup_text("automancy:conveyor"), Some(handle));
    assert_eq!(interner.lookup_text("automancy:other"), None);
    assert_eq!(interner.lookup_text("no separator"), None);
}

#[test]
fn intern_text_rejects_malformed_identifiers() {
    let mut interner = Interner::new();
    assert_eq!(
        interner.intern_text("conveyor"),
        Err(InternError::BadId(IdError::MissingSeparator))
    );
    assert_eq!(
        interner.intern_text("a:b:c"),
        Err(InternError::BadId(IdError::SeparatorInName))
    );
    assert_eq!(interner.len(), 0);
    assert_eq!(interner.intern_text("a:b"), Ok(Interned { index: 0 }));
}

#[test]
fn intern_own_uses_the_engine_namespace() {
    let mut interner = Interner::new();
    let handle = interner.intern_own("buffer").unwrap();
    assert_eq!(interner.resolve_text(handle), Some("automancy:buffer".to_string()));
    let all = interner.intern_own_all(&vec!["buffer", "script", "buffer"]).unwrap();
    assert_eq!(all[0], handle);
    assert_eq!(all[2], handle);
    assert_ne!(all[1], handle);
    assert_eq!(interner.len(), 2);
}

#[test]
fn data_ids_are_distinct_and_named() {
    let mut interner = Interner::new();
    let ids = DataIds::new(&mut interner).unwrap();
    assert_eq!(interner.len(), 5);
    assert_eq!(interner.resolve_text(ids.buffer), Some("automancy:buffer".to_string()));
    assert_eq!(interner.resolve_text(ids.script), Some("automancy:script".to_string()));
    assert_eq!(interner.resolve_text(ids.target), Some("automancy:target".to_string()));
    assert_eq!(interner.resolve_text(ids.link), Some("automancy:link".to_string()));
    assert_eq!(interner.resolve_text(ids.linked), Some("automancy:linked".to_string()));
    let again = DataIds::new(&mut interner).unwrap();
    assert_eq!(again, ids);
    assert_eq!(interner.len(), 5);
}

#[test]
fn gui_ids_are_named_after_their_fields() {
    let mut interner = Interner::new();
    let ids = GuiIds::new(&mut interner).unwrap();
    assert_eq!(interner.resolve_text(ids.tile_config), Some("automancy:tile_config".to_string()));
    assert_eq!(interner.resolve_text(ids.tile_info), Some("automancy:tile_info".to_string()));
    assert_eq!(
        interner.resolve_text(ids.tile_config_script),
        Some("automancy:tile_config_script".to_string())
    );
    assert_eq!(
        interner.resolve_text(ids.tile_config_storage),
        Some("automancy:tile_config_storage".to_string())
    );
    assert_eq!(
        interner.resolve_text(ids.tile_config_target),
        Some("automancy:tile_config_target".to_string())
    );
}

#[test]
fn a_full_table_takes_no_new_text() {
    assert_eq!(plan_intern(Some(3), 10), InternPlan::Known(Interned { index: 3 }));
    assert_eq!(plan_intern(Some(3), TABLE_LIMIT), InternPlan::Known(Interned { index: 3 }));
    assert_eq!(plan_intern(None, 10), InternPlan::Fresh);
    assert_eq!(plan_intern(None, TABLE_LIMIT - 1), InternPlan::Fresh);
    assert_eq!(plan_intern(None, TABLE_LIMIT), InternPlan::Full);
    assert_eq!(TABLE_LIMIT, 4_294_967_295);
}
