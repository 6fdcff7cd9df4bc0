use automancy::data::DataMap;
use automancy::id::Id;
use automancy::ids::GuiIds;
use automancy::interner::{Interned, Interner};
use automancy::models::{
    bring_to_front, merged_face, precedes, shifted_indices, sorted_tiles, Face, Mesh, ModelError,
    RawFace,
};
use automancy::registry::{Registry, ResourceManager, Tile};
use automancy::text::text_before;
use automancy::tile_entity::DataIds;

fn intern(interner: &mut Interner, text: &str) -> Interned {
    interner.intern(&Id::from_str(text).unwrap()).unwrap()
}

fn manager(tiles: &[&str]) -> ResourceManager {
    let mut interner = Interner::new();
    let ids = DataIds::new(&mut interner).unwrap();
    let gui = GuiIds::new(&mut interner).unwrap();
    let none = interner.intern(&Id::none()).unwrap();
    let mut registry = Registry::new(none, ids, gui);
    for text in tiles {
        let id = intern(&mut interner, text);
        registry.add_tile(id, Tile { model: id, function: None, data: DataMap::new() });
    }
    ResourceManager::new(interner, registry)
}

fn names(m: &ResourceManager, order: &[Interned]) -> Vec<String> {
    order.iter().map(|id| m.interner.resolve_text(*id).unwrap()).collect()
}

#[test]
fn texts_are_ordered_by_their_characters() {
    assert!(text_before("a", "b"));
    assert!(!text_before("b", "a"));
    assert!(!text_before("a", "a"));
    assert!(text_before("", "a"));
    assert!(!text_before("a", ""));
    assert!(!text_before("", ""));
    assert!(text_before("ab", "abc"));
    assert!(text_before("Z", "a"));
    assert!(text_before("z", "\u{e9}"));
    assert!(text_before("\u{e9}", "\u{1f600}"));
    for (a, b) in [("abc", "abd"), ("", "x"), ("a:b", "a;b"), ("\u{ff}", "\u{100}")] {
        assert_eq!(text_before(a, b), a < b);
        assert_eq!(text_before(b, a), b < a);
    }
}

#[test]
fn identifiers_are_ordered_by_namespace_then_name() {
    let id = |ns: &str, name: &str| Id::new(ns.to_string(), name.to_string()).unwrap();
    assert!(precedes(&id("a", "z"), &id("b", "a")));
    assert!(!precedes(&id("b", "a"), &id("a", "z")));
    assert!(precedes(&id("a", "a"), &id("a", "b")));
    assert!(!precedes(&id("a", "b"), &id("a", "b")));
    // The written forms would order these two the other way round.
    assert!(precedes(&id("a", "z"), &id("a!", "a")));
}

#[test]
fn tiles_are_shown_in_the_order_of_their_identifiers() {
    let m = manager(&["mod:zebra", "automancy:none", "automancy:node", "mod:ant", "base:x"]);
    let order = sorted_tiles(&m.registry, &m.interner);
    assert_eq!(
        names(&m, &order),
        vec!["automancy:node", "automancy:none", "base:x", "mod:ant", "mod:zebra"]
    );
}

#[test]
fn bring_to_front_swaps() {
    let h = |index: u32| Interned { index };
    let mut order = vec![h(5), h(6), h(7), h(8)];
    bring_to_front(&mut order, h(7));
    assert_eq!(order, vec![h(7), h(6), h(5), h(8)]);
    bring_to_front(&mut order, h(7));
    assert_eq!(order, vec![h(7), h(6), h(5), h(8)]);
    bring_to_front(&mut order, h(1));
    assert_eq!(order, vec![h(7), h(6), h(5), h(8)]);
    let mut twice = vec![h(1), h(2), h(2)];
    bring_to_front(&mut twice, h(2));
    assert_eq!(twice, vec![h(2), h(1), h(2)]);
    let mut empty: Vec<Interned> = vec![];
    bring_to_front(&mut empty, h(1));
    assert!(empty.is_empty());
}

fn mesh(vertex_count: u32, faces: &[&[u32]]) -> Mesh {
    Mesh {
        vertex_count,
        faces: faces.iter().map(|indices| RawFace { indices: indices.to_vec() }).collect(),
    }
}

fn merged_indices(m: &ResourceManager) -> Vec<Vec<u32>> {
    m.models.raw_faces().iter().map(|face| face.indices.clone()).collect()
}

#[test]
fn compile_models_orders_the_tiles_and_lays_out_the_buffers() {
    let mut m = manager(&["mod:zebra", "automancy:none", "automancy:node", "mod:ant"]);
    let a = intern(&mut m.interner, "model:a");
    let b = intern(&mut m.interner, "model:b");
    let c = intern(&mut m.interner, "model:c");
    let d = intern(&mut m.interner, "model:d");
    m.models.add_mesh(c, mesh(7, &[&[0, 1, 2], &[4, 5, 6]]));
    m.models.add_mesh(a, mesh(4, &[&[0, 1, 2, 0, 2, 3]]));
    m.models.add_mesh(d, mesh(2, &[&[]]));
    m.models.add_mesh(b, mesh(10, &[]));
    assert_eq!(m.compile_models(), Ok(()));
    assert_eq!(
        names(&m, m.models.tiles()),
        vec!["automancy:none", "automancy:node", "mod:ant", "mod:zebra"]
    );
    assert_eq!(m.models.vertex_offset(a), Some(0));
    assert_eq!(m.models.vertex_offset(b), Some(4));
    assert_eq!(m.models.vertex_offset(c), Some(14));
    assert_eq!(m.models.vertex_offset(d), Some(21));
    assert_eq!(m.models.face(a), Some(Face { offset: 0, size: 6 }));
    assert_eq!(m.models.face(b), None);
    assert_eq!(m.models.face(c), Some(Face { offset: 6, size: 6 }));
    assert_eq!(m.models.face(d), Some(Face { offset: 12, size: 0 }));
    assert_eq!(m.models.face(Interned { index: 999 }), None);
    assert_eq!(
        merged_indices(&m),
        vec![vec![0, 1, 2, 0, 2, 3], vec![14, 15, 16, 18, 19, 20], vec![]]
    );
}

#[test]
fn one_model_of_two_faces_is_merged_into_one() {
    let mut m = manager(&["automancy:none"]);
    let a = intern(&mut m.interner, "model:a");
    m.models.add_mesh(a, mesh(4, &[&[0, 1, 2], &[0, 2, 3]]));
    assert_eq!(m.compile_models(), Ok(()));
    assert_eq!(merged_indices(&m), vec![vec![0, 1, 2, 0, 2, 3]]);
    assert_eq!(m.models.face(a), Some(Face { offset: 0, size: 6 }));
    assert_eq!(m.models.vertex_offset(a), Some(0));
}

#[test]
fn merged_faces_follow_the_models_that_have_a_face() {
    let mut m = manager(&["automancy:none"]);
    let a = intern(&mut m.interner, "model:a");
    let b = intern(&mut m.interner, "model:b");
    let c = intern(&mut m.interner, "model:c");
    m.models.add_mesh(a, mesh(3, &[&[0, 1, 2]]));
    m.models.add_mesh(b, mesh(5, &[]));
    m.models.add_mesh(c, mesh(4, &[&[0, 1, 2], &[2, 3, 0]]));
    assert_eq!(m.compile_models(), Ok(()));
    let merged = merged_indices(&m);
    assert_eq!(merged, vec![vec![0, 1, 2], vec![8, 9, 10, 10, 11, 8]]);
    let mut offset = 0;
    for (id, face) in [(a, &merged[0]), (c, &merged[1])] {
        assert_eq!(m.models.face(id), Some(Face { offset, size: face.len() as u32 }));
        offset += face.len() as u32;
    }
    assert_eq!(m.models.face(b), None);
}

#[test]
fn indices_are_counted_from_a_base() {
    assert_eq!(shifted_indices(&vec![0, 1, 2], 4), Some(vec![4, 5, 6]));
    assert_eq!(shifted_indices(&vec![], 9), Some(vec![]));
    assert_eq!(shifted_indices(&vec![7, 0], 0), Some(vec![7, 0]));
    assert_eq!(shifted_indices(&vec![0, u32::MAX - 4], 4), Some(vec![4, u32::MAX]));
    assert_eq!(shifted_indices(&vec![0, u32::MAX - 3], 4), None);
    assert_eq!(shifted_indices(&vec![u32::MAX], 1), None);
}

#[test]
fn the_faces_of_a_mesh_are_merged_in_their_order() {
    let face = merged_face(&mesh(4, &[&[0, 1, 2], &[], &[0, 2, 3]]), 10).unwrap();
    assert_eq!(face.indices, vec![10, 11, 12, 10, 12, 13]);
    assert_eq!(merged_face(&mesh(4, &[]), 10).unwrap().indices, Vec::<u32>::new());
    assert!(merged_face(&mesh(4, &[&[0], &[u32::MAX]]), 1).is_none());
}

#[test]
fn compile_models_refuses_what_no_buffer_can_address() {
    let mut m = manager(&["automancy:none"]);
    let a = intern(&mut m.interner, "model:a");
    let b = intern(&mut m.interner, "model:b");
    m.models.add_mesh(a, mesh(u32::MAX, &[&[1]]));
    assert_eq!(m.compile_models(), Ok(()));
    assert_eq!(merged_indices(&m), vec![vec![1]]);
    m.models.add_mesh(b, mesh(1, &[&[0]]));
    assert_eq!(m.compile_models(), Err(ModelError::TooManyVertices));
    assert_eq!(m.models.vertex_offset(a), Some(0));
    assert_eq!(m.models.vertex_offset(b), None);
    assert_eq!(merged_indices(&m), vec![vec![1]]);
    m.models.add_mesh(a, mesh(u32::MAX - 1, &[&[1]]));
    m.models.add_mesh(b, mesh(1, &[&[2]]));
    assert_eq!(m.compile_models(), Err(ModelError::IndexTooLarge));
    assert_eq!(m.models.vertex_offset(b), None);
    assert_eq!(merged_indices(&m), vec![vec![1]]);
    m.models.add_mesh(b, mesh(1, &[&[0, 1]]));
    assert_eq!(m.compile_models(), Ok(()));
    assert_eq!(m.models.vertex_offset(b), Some(u32::MAX - 1));
    assert_eq!(m.models.face(b), Some(Face { offset: 1, size: 2 }));
    assert_eq!(merged_indices(&m), vec![vec![1], vec![u32::MAX - 1, u32::MAX]]);
}
