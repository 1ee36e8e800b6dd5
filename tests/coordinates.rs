use open_fortress::coordinates::{
    to_index, to_world_coordinates, BlockCoordinates, ChunkCoordinates, WorldCoordinates,
    CHUNK_SIZE_X, CHUNK_SIZE_Y, CHUNK_SIZE_Z,
};

#[test]
fn test_to_index() {
    let mut index = 0;
    for x in 0..CHUNK_SIZE_X {
        for y in 0..CHUNK_SIZE_Y {
            for z in 0..CHUNK_SIZE_Z {
                assert_eq!(to_index(BlockCoordinates::new(x, y, z)), index, "x: {}, y: {}, z: {}", x, y, z);
                index += 1;
            }
        }
    }
}

#[test]
fn test_to_world() {
    let chunk_coordinates = ChunkCoordinates::new(0, 0, 0);
    assert_eq!(
        to_world_coordinates(chunk_coordinates, BlockCoordinates::new(1, 2, 3)),
        Some(WorldCoordinates::new(1, 2, 3))
    )
}

#[test]
fn to_world_offsets_by_chunk() {
    let chunk = ChunkCoordinates::new(-1, 2, -3);
    assert_eq!(
        to_world_coordinates(chunk, BlockCoordinates::new(15, 0, 0)),
        Some(WorldCoordinates::new(-1, 32, -3))
    );
}

#[test]
fn to_world_reports_overflow() {
    let chunk = ChunkCoordinates::new(i32::MAX, 0, 0);
    assert_eq!(to_world_coordinates(chunk, BlockCoordinates::new(0, 0, 0)), None);
}

#[test]
fn chunk_and_block_of_negative_coordinates() {
    let (chunk, block) = WorldCoordinates::new(-1, -17, 5).to_chunk_and_block();
    assert_eq!(chunk, ChunkCoordinates::new(-1, -2, 5));
    assert_eq!(block, BlockCoordinates::new(15, 15, 0));
    let (chunk, block) = WorldCoordinates::new(16, 33, -2).to_chunk_and_block();
    assert_eq!(chunk, ChunkCoordinates::new(1, 2, -2));
    assert_eq!(block, BlockCoordinates::new(0, 1, 0));
}

#[test]
fn chunk_and_block_at_limits() {
    let (chunk, block) = WorldCoordinates::new(i32::MIN, i32::MAX, 0).to_chunk_and_block();
    assert_eq!(chunk, ChunkCoordinates::new(i32::MIN / 16, i32::MAX / 16, 0));
    assert_eq!(block, BlockCoordinates::new(0, 15, 0));
}

#[test]
fn with_z_offset_replaces_z() {
    assert_eq!(WorldCoordinates::new(1, 2, 3).with_z_offset(-7), WorldCoordinates::new(1, 2, -7));
}

#[test]
fn same_layer_neighbors_order_and_costs() {
    let n = WorldCoordinates::new(0, 0, 0).same_layer_neighbors();
    let expected = vec![
        (WorldCoordinates::new(-1, 1, 0), 2),
        (WorldCoordinates::new(0, 1, 0), 1),
        (WorldCoordinates::new(1, 1, 0), 2),
        (WorldCoordinates::new(-1, 0, 0), 1),
        (WorldCoordinates::new(1, 0, 0), 1),
        (WorldCoordinates::new(-1, -1, 0), 2),
        (WorldCoordinates::new(0, -1, 0), 1),
        (WorldCoordinates::new(1, -1, 0), 2),
    ];
    assert_eq!(n, expected);
}

#[test]
fn all_neighbors_costs_are_squared_distances() {
    let c = WorldCoordinates::new(10, -4, 3);
    let n = c.all_neighbors();
    assert_eq!(n.len(), 26);
    assert_eq!(n[0], (WorldCoordinates::new(9, -3, 4), 3));
    assert_eq!(n[4], (WorldCoordinates::new(10, -4, 4), 1));
    assert_eq!(n[25], (WorldCoordinates::new(11, -5, 2), 3));
    for (p, cost) in n {
        let d = (p.x - c.x).pow(2) + (p.y - c.y).pow(2) + (p.z - c.z).pow(2);
        assert_eq!(d as u32, cost);
    }
}

#[test]
fn chunk_neighbors_surround_the_chunk() {
    let n = ChunkCoordinates::new(0, 0, 0).all_neighbors();
    assert_eq!(n.len(), 26);
    assert_eq!(n[0], ChunkCoordinates::new(-1, 1, 1));
    assert!(!n.contains(&ChunkCoordinates::new(0, 0, 0)));
}
