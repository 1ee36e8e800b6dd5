use open_fortress::block::{BlockType, SolidMaterial};
use open_fortress::chunk::{classify, Chunk};
use open_fortress::coordinates::{BlockCoordinates, ChunkCoordinates, WorldCoordinates};
use open_fortress::world_map::{chunks_to_redraw, WorldMap, FULL_HEALTH};

fn flat(_c: ChunkCoordinates, _x: u32, _y: u32) -> i32 {
    0
}

fn hills(c: ChunkCoordinates, x: u32, y: u32) -> i32 {
    c.x * 3 + c.y - 2 + (x as i32) - (y as i32)
}

#[test]
fn classify_follows_the_threshold() {
    assert_eq!(classify(5, 5), BlockType::Solid(SolidMaterial::Grass));
    assert_eq!(classify(0, 0), BlockType::Empty);
    assert_eq!(classify(4, 5), BlockType::Solid(SolidMaterial::Dirt));
    assert_eq!(classify(-3, -5), BlockType::Liquid);
    assert_eq!(classify(-5, -5), BlockType::Empty);
    assert_eq!(classify(6, 5), BlockType::Empty);
    assert_eq!(classify(-1, 0), BlockType::Solid(SolidMaterial::Dirt));
}

#[test]
fn chunk_generation_is_deterministic() {
    for coords in [ChunkCoordinates::new(0, 0, 0), ChunkCoordinates::new(-2, 1, 3), ChunkCoordinates::new(1, -1, -1)] {
        let a = Chunk::new(coords, &hills);
        let b = Chunk::new(coords, &hills);
        assert_eq!(a.blocks, b.blocks);
        assert_eq!(a.blocks.len(), 256);
        assert_eq!(a.coordinates, coords);
    }
}

#[test]
fn chunk_classifies_each_column() {
    let coords = ChunkCoordinates::new(1, 0, 2);
    let chunk = Chunk::new(coords, &hills);
    for x in 0..16u32 {
        for y in 0..16u32 {
            let t = hills(coords, x, y);
            assert_eq!(chunk.blocks[(x * 16 + y) as usize], classify(2, t));
        }
    }
}

#[test]
fn remove_block_clears_one_block() {
    let mut chunk = Chunk::new(ChunkCoordinates::new(0, 0, -1), &flat);
    assert_eq!(chunk.blocks[17], BlockType::Solid(SolidMaterial::Dirt));
    chunk.remove_block(BlockCoordinates::new(1, 1, 0));
    assert_eq!(chunk.blocks[17], BlockType::Empty);
    assert_eq!(chunk.blocks[16], BlockType::Solid(SolidMaterial::Dirt));
}

#[test]
fn missing_chunk_is_absent_and_solid() {
    let world = WorldMap::new();
    let p = WorldCoordinates::new(3, 4, 0);
    assert_eq!(world.get_block(p), None);
    assert_eq!(world.get_raw_block(p), None);
    assert!(world.solidness(p));
}

#[test]
fn surrounding_chunks_are_generated() {
    let mut world = WorldMap::new();
    world.ensure_surrounding_exist(ChunkCoordinates::new(0, 0, 0), &flat);
    // Every chunk in the 3x3x3 block of chunks exists.
    for (x, y, z) in [(-16, -16, -1), (31, 31, 1), (0, 0, 0), (-1, 20, 1)] {
        assert!(world.get_raw_block(WorldCoordinates::new(x, y, z)).is_some());
    }
    assert_eq!(world.get_raw_block(WorldCoordinates::new(32, 0, 0)), None);
    assert_eq!(world.get_raw_block(WorldCoordinates::new(0, 0, 2)), None);
    // Empty above ground, dirt below.
    let above = WorldCoordinates::new(5, 5, 0);
    assert_eq!(world.get_raw_block(above), Some(BlockType::Empty));
    assert_eq!(world.get_block(above), None);
    assert!(!world.solidness(above));
    let ground = WorldCoordinates::new(5, 5, -1);
    assert_eq!(world.get_block(ground), Some(BlockType::Solid(SolidMaterial::Dirt)));
    assert!(world.solidness(ground));
}

#[test]
fn surrounding_generation_keeps_existing_chunks() {
    let mut world = WorldMap::new();
    world.ensure_surrounding_exist(ChunkCoordinates::new(0, 0, -1), &flat);
    let p = WorldCoordinates::new(2, 2, -1);
    assert!(world.damage_block(p, 5000, &flat));
    world.ensure_surrounding_exist(ChunkCoordinates::new(0, 0, 0), &flat);
    assert_eq!(world.get_raw_block(p), Some(BlockType::Empty));
}

#[test]
fn damage_twice_destroys_block() {
    let mut world = WorldMap::new();
    world.ensure_surrounding_exist(ChunkCoordinates::new(0, 0, -1), &flat);
    let p = WorldCoordinates::new(1, 1, -1);
    assert_eq!(FULL_HEALTH, 1000);
    // 1.0 - 0.6 = 0.4 remains: not destroyed.
    assert!(!world.damage_block(p, 600, &flat));
    assert_eq!(world.get_block(p), Some(BlockType::Solid(SolidMaterial::Dirt)));
    // 0.4 - 0.6 = -0.2: destroyed and cleared.
    assert!(world.damage_block(p, 600, &flat));
    assert_eq!(world.get_raw_block(p), Some(BlockType::Empty));
    assert_eq!(world.get_block(p), None);
}

#[test]
fn damage_to_exact_zero_keeps_block() {
    let mut world = WorldMap::new();
    world.ensure_surrounding_exist(ChunkCoordinates::new(0, 0, -1), &flat);
    let p = WorldCoordinates::new(4, 4, -1);
    assert!(!world.damage_block(p, 1000, &flat));
    assert!(world.damage_block(p, 1, &flat));
}

#[test]
fn destroying_in_missing_chunk_generates_it() {
    let mut world = WorldMap::new();
    let p = WorldCoordinates::new(-20, 7, -1);
    assert_eq!(world.get_raw_block(p), None);
    assert!(world.damage_block(p, 1500, &flat));
    assert_eq!(world.get_raw_block(p), Some(BlockType::Empty));
    assert_eq!(
        world.get_raw_block(WorldCoordinates::new(-19, 7, -1)),
        Some(BlockType::Solid(SolidMaterial::Dirt))
    );
}

#[test]
fn blocks_are_damaged_separately() {
    let mut world = WorldMap::new();
    let a = WorldCoordinates::new(0, 0, -1);
    let b = WorldCoordinates::new(1, 0, -1);
    assert!(!world.damage_block(a, 700, &flat));
    assert!(!world.damage_block(b, 700, &flat));
    assert!(world.damage_block(a, 700, &flat));
    assert_eq!(world.get_raw_block(a), Some(BlockType::Empty));
    assert_eq!(world.get_raw_block(b), Some(BlockType::Solid(SolidMaterial::Dirt)));
}

#[test]
fn redraw_of_inner_block_is_its_chunk() {
    assert_eq!(chunks_to_redraw(WorldCoordinates::new(5, 7, 2)), vec![ChunkCoordinates::new(0, 0, 2)]);
}

#[test]
fn redraw_of_edge_block_adds_neighbor_chunks() {
    let r = chunks_to_redraw(WorldCoordinates::new(-1, 20, 0));
    assert_eq!(r.len(), 9);
    assert_eq!(r[0], ChunkCoordinates::new(-1, 1, 0));
    assert_eq!(r[1], ChunkCoordinates::new(-2, 2, 0));
    assert_eq!(r[8], ChunkCoordinates::new(0, 0, 0));
    let r = chunks_to_redraw(WorldCoordinates::new(0, 5, i32::MIN));
    assert_eq!(r.len(), 9);
}
