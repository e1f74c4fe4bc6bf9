use survicraft::grid::GridPos;
use survicraft::tilemap::TileMapStorage;

fn storage() -> TileMapStorage {
    TileMapStorage::new(2, 1)
}

fn p(x: i32, y: i32) -> GridPos {
    GridPos::new(x, y)
}

#[test]
fn test_tile_to_center() {
    let storage = storage();

    assert_eq!(storage.tile_to_center(&p(0, 0)), p(0, 0));
    assert_eq!(storage.tile_to_center(&p(1, 1)), p(0, 0));
    assert_eq!(storage.tile_to_center(&p(2, 2)), p(0, 0));
    assert_eq!(storage.tile_to_center(&p(3, 3)), p(5, 5));
    assert_eq!(storage.tile_to_center(&p(-1, -1)), p(0, 0));
    assert_eq!(storage.tile_to_center(&p(-3, -3)), p(-5, -5));
}

#[test]
fn test_discover_chunks() {
    let storage = storage();

    let center = p(0, 0);
    let chunks = storage.discover_chunks(center);
    let expected = vec![
        p(-5, -5),
        p(-5, 0),
        p(-5, 5),
        p(0, -5),
        p(0, 0),
        p(0, 5),
        p(5, -5),
        p(5, 0),
        p(5, 5),
    ];
    assert_eq!(chunks, expected);
}

#[test]
fn test_chunk_tiles() {
    let storage = storage();

    let center = p(0, 0);
    let tiles = storage.chunk_tiles(center);
    let expected = vec![
        p(-2, -2),
        p(-2, -1),
        p(-2, 0),
        p(-2, 1),
        p(-2, 2),
        p(-1, -2),
        p(-1, -1),
        p(-1, 0),
        p(-1, 1),
        p(-1, 2),
        p(0, -2),
        p(0, -1),
        p(0, 0),
        p(0, 1),
        p(0, 2),
        p(1, -2),
        p(1, -1),
        p(1, 0),
        p(1, 1),
        p(1, 2),
        p(2, -2),
        p(2, -1),
        p(2, 0),
        p(2, 1),
        p(2, 2),
    ];
    assert_eq!(tiles, expected);
}

#[test]
fn chunk_border_is_the_ring_in_pairs() {
    let storage = storage();
    let border = storage.chunk_border(p(0, 0));
    let mut expected = Vec::new();
    for x in -3..=3 {
        expected.push(p(x, -3));
        expected.push(p(x, 3));
    }
    for y in -2..=2 {
        expected.push(p(-3, y));
        expected.push(p(3, y));
    }
    assert_eq!(border.len(), 24);
    assert_eq!(border, expected);
}

#[test]
fn chunk_border_around_offset_center() {
    let storage = TileMapStorage::new(0, 0);
    let border = storage.chunk_border(p(10, -4));
    assert_eq!(
        border,
        vec![
            p(9, -5),
            p(9, -3),
            p(10, -5),
            p(10, -3),
            p(11, -5),
            p(11, -3),
            p(9, -4),
            p(11, -4),
        ]
    );
}

#[test]
fn tile_to_center_edges_of_chunks() {
    let storage = TileMapStorage::new(16, 3);
    assert_eq!(storage.tile_to_center(&p(16, -16)), p(0, 0));
    assert_eq!(storage.tile_to_center(&p(17, -17)), p(33, -33));
    assert_eq!(storage.tile_to_center(&p(49, -49)), p(33, -33));
    assert_eq!(storage.tile_to_center(&p(50, -50)), p(66, -66));
    assert_eq!(storage.tile_to_center(&p(33, 0)), p(33, 0));
}

#[test]
fn chunk_of_tile_contains_tile() {
    let storage = TileMapStorage::new(3, 1);
    for x in -20..=20 {
        for y in -20..=20 {
            let center = storage.tile_to_center(&p(x, y));
            assert!(storage.chunk_tiles(center).contains(&p(x, y)));
            assert_eq!(storage.tile_to_center(&center), center);
            assert!(!storage.chunk_border(center).contains(&p(x, y)));
        }
    }
}

#[test]
fn insert_then_get_chunk() {
    let mut storage = storage();
    assert_eq!(storage.get_chunk(p(0, 0)), None);
    storage.insert_chunk(p(0, 0), 42);
    storage.insert_chunk(p(5, 0), 7);
    assert_eq!(storage.get_chunk(p(0, 0)), Some(42));
    assert_eq!(storage.get_chunk(p(5, 0)), Some(7));
    assert_eq!(storage.get_chunk(p(0, 5)), None);
    storage.insert_chunk(p(0, 0), 43);
    assert_eq!(storage.get_chunk(p(0, 0)), Some(43));
}

#[test]
fn chunks_to_generate_skips_stored_chunks() {
    let mut storage = storage();
    let all = storage.chunks_to_generate(p(1, -2));
    assert_eq!(all, storage.discover_chunks(p(0, 0)));
    storage.insert_chunk(p(0, 0), 1);
    storage.insert_chunk(p(5, 5), 2);
    let rest = storage.chunks_to_generate(p(1, -2));
    assert_eq!(
        rest,
        vec![p(-5, -5), p(-5, 0), p(-5, 5), p(0, -5), p(0, 5), p(5, -5), p(5, 0)]
    );
    let around = storage.chunks_to_generate(p(6, 4));
    assert_eq!(around.len(), 7);
    assert!(!around.contains(&p(0, 0)));
    assert!(!around.contains(&p(5, 5)));
    assert!(around.contains(&p(10, 10)));
}

#[test]
fn discovered_chunks_are_distinct_centers() {
    let storage = TileMapStorage::new(4, 2);
    let chunks = storage.discover_chunks(p(9, -18));
    assert_eq!(chunks.len(), 25);
    for (i, c) in chunks.iter().enumerate() {
        assert_eq!(storage.tile_to_center(c), *c);
        assert!(!chunks[..i].contains(c));
    }
}

#[test]
fn rediscovery_asks_for_nothing() {
    let mut storage = TileMapStorage::new(2, 1);
    let first = storage.chunks_to_generate(p(-7, 3));
    assert_eq!(first.len(), 9);
    for (i, c) in first.iter().enumerate() {
        storage.insert_chunk(*c, i as u64);
    }
    assert!(storage.chunks_to_generate(p(-7, 3)).is_empty());
    assert!(storage.chunks_to_generate(p(-6, 4)).is_empty());
    assert_eq!(storage.chunks_to_generate(p(-5, 0)).len(), 3);
}
