use automancy::coord::{ChunkCoord, CullingRange, TileCoord};

#[test]
fn right_is_one_step_in_q() {
    assert_eq!(TileCoord::right(), TileCoord::new(1, 0));
    assert_eq!(TileCoord::top_right(), TileCoord::new(1, -1));
    assert_eq!(TileCoord::bottom_right(), TileCoord::new(0, 1));
    assert_eq!(TileCoord::bottom_left(), TileCoord::new(-1, 1));
    assert_eq!(TileCoord::left(), TileCoord::new(-1, 0));
    assert_eq!(TileCoord::top_left(), TileCoord::new(0, -1));
}

#[test]
fn add_and_sub_are_componentwise() {
    let a = TileCoord::new(3, -7);
    let b = TileCoord::new(-10, 4);
    assert_eq!(a.add(b), TileCoord::new(-7, -3));
    assert_eq!(a.sub(b), TileCoord::new(13, -11));
    assert_eq!(a.checked_add(b), Some(TileCoord::new(-7, -3)));
}

#[test]
fn checked_add_refuses_overflow() {
    let a = TileCoord::new(i32::MAX, 0);
    assert_eq!(a.checked_add(TileCoord::right()), None);
    assert_eq!(a.checked_add(TileCoord::left()), Some(TileCoord::new(i32::MAX - 1, 0)));
    let b = TileCoord::new(0, i32::MIN);
    assert_eq!(b.checked_sub(TileCoord::bottom_right()), None);
}

#[test]
fn distance_counts_steps() {
    let origin = TileCoord::zero();
    assert_eq!(origin.distance(TileCoord::new(0, 0)), 0);
    assert_eq!(origin.distance(TileCoord::new(3, 0)), 3);
    assert_eq!(origin.distance(TileCoord::new(2, 2)), 4);
    assert_eq!(origin.distance(TileCoord::new(2, -2)), 2);
    assert_eq!(origin.distance(TileCoord::new(-1, -4)), 5);
    assert_eq!(
        TileCoord::new(i32::MIN, i32::MIN).distance(TileCoord::new(i32::MAX, i32::MAX)),
        2 * (u32::MAX as u64)
    );
}

#[test]
fn every_direction_is_a_neighbor() {
    let at = TileCoord::new(5, -2);
    let around = at.neighbors();
    assert_eq!(around.len(), 6);
    let dirs = TileCoord::directions();
    for (k, (i, c)) in around.iter().enumerate() {
        assert_eq!(*i, k);
        assert_eq!(*c, at.add(dirs[k]));
        assert!(at.is_neighbor(*c));
    }
    assert!(!at.is_neighbor(at));
}

#[test]
fn neighbors_at_the_edge_leave_out_what_does_not_exist() {
    let corner = TileCoord::new(i32::MAX, i32::MAX);
    let around = corner.neighbors();
    let indices: Vec<usize> = around.iter().map(|(i, _)| *i).collect();
    assert_eq!(indices, vec![4, 5]);
}

#[test]
fn chunks_floor_towards_negative() {
    assert_eq!(ChunkCoord::from_tile(TileCoord::new(0, 0)), ChunkCoord { q: 0, r: 0 });
    assert_eq!(ChunkCoord::from_tile(TileCoord::new(15, 16)), ChunkCoord { q: 0, r: 1 });
    assert_eq!(ChunkCoord::from_tile(TileCoord::new(-1, -16)), ChunkCoord { q: -1, r: -1 });
    assert_eq!(ChunkCoord::from_tile(TileCoord::new(-17, 31)), ChunkCoord { q: -2, r: 1 });
    assert_eq!(
        ChunkCoord::from_tile(TileCoord::new(i32::MIN, i32::MAX)),
        ChunkCoord { q: -134217728, r: 134217727 }
    );
    assert!(ChunkCoord { q: -1, r: 0 }.holds(TileCoord::new(-16, 15)));
    assert!(!ChunkCoord { q: -1, r: 0 }.holds(TileCoord::new(-17, 15)));
}

#[test]
fn culling_range_is_a_hexagon() {
    let range = CullingRange::new(TileCoord::new(1, 1), 2);
    assert!(range.is_in_bounds(TileCoord::new(1, 1)));
    assert!(range.is_in_bounds(TileCoord::new(3, 1)));
    assert!(range.is_in_bounds(TileCoord::new(3, -1)));
    assert!(!range.is_in_bounds(TileCoord::new(3, 2)));
    assert!(!range.is_in_bounds(TileCoord::new(4, 1)));
}

#[test]
fn a_direction_turns_a_tile_by_sixty_degrees_a_step() {
    assert_eq!(TileCoord::top_right().rotation_degrees(), Some(0));
    assert_eq!(TileCoord::right().rotation_degrees(), Some(-60));
    assert_eq!(TileCoord::bottom_right().rotation_degrees(), Some(-120));
    assert_eq!(TileCoord::bottom_left().rotation_degrees(), Some(-180));
    assert_eq!(TileCoord::left().rotation_degrees(), Some(-240));
    assert_eq!(TileCoord::top_left().rotation_degrees(), Some(-300));
    assert_eq!(TileCoord::zero().rotation_degrees(), None);
    assert_eq!(TileCoord::new(2, 0).rotation_degrees(), None);
    let dirs = TileCoord::directions();
    for (i, d) in dirs.iter().enumerate() {
        assert_eq!(d.direction_index(), Some(i));
    }
    assert_eq!(TileCoord::new(1, 1).direction_index(), None);
}
