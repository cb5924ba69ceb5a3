use voxel_world::block::{Block, BlockVertex};
use voxel_world::chunk::{Chunk, Mesh, CHUNK_X_SIZE, CHUNK_Y_SIZE, CHUNK_Z_SIZE, PLACED};
use voxel_world::terrain::{DIRT, GRASS, STONE};

fn flat(height: usize) -> [[usize; 16]; 16] {
    [[height; 16]; 16]
}

fn face_total(blocks: &Vec<Vec<Vec<Block>>>) -> usize {
    let mut n = 0;
    for plane in blocks {
        for column in plane {
            for block in column {
                n += block.faces.iter().filter(|f| f.is_some()).count();
            }
        }
    }
    n
}

fn shown(block: &Block) -> Vec<bool> {
    block.faces.iter().map(|f| f.is_some()).collect()
}

#[test]
fn terrain_layers_follow_the_ground_height() {
    assert_eq!(Chunk::block_type_at(0, 80), STONE);
    assert_eq!(Chunk::block_type_at(60, 80), STONE);
    assert_eq!(Chunk::block_type_at(61, 80), DIRT);
    assert_eq!(Chunk::block_type_at(78, 80), DIRT);
    assert_eq!(Chunk::block_type_at(79, 80), GRASS);
    assert_eq!(Chunk::block_type_at(80, 80), 0);
    assert_eq!(Chunk::block_type_at(255, 80), 0);
}

#[test]
fn terrain_edge_heights() {
    assert_eq!(Chunk::block_type_at(0, 0), 0);
    assert_eq!(Chunk::block_type_at(0, 1), GRASS);
    assert_eq!(Chunk::block_type_at(1, 1), 0);
    assert_eq!(Chunk::block_type_at(0, 2), STONE);
    assert_eq!(Chunk::block_type_at(1, 2), GRASS);
    assert_eq!(Chunk::block_type_at(60, 61), GRASS);
    assert_eq!(Chunk::block_type_at(60, 62), STONE);
    assert_eq!(Chunk::block_type_at(61, 62), GRASS);
    assert_eq!(Chunk::block_type_at(61, 63), DIRT);
    assert_eq!(Chunk::block_type_at(255, 256), GRASS);
    assert_eq!(Chunk::block_type_at(255, 257), DIRT);
    assert_eq!(Chunk::block_type_at(255, usize::MAX), DIRT);
    assert_eq!(Chunk::block_type_at(3, usize::MAX), STONE);
}

#[test]
fn generated_grid_has_chunk_dimensions() {
    let blocks = Chunk::blocks_from_heights(&flat(2));
    assert_eq!(blocks.len(), CHUNK_X_SIZE);
    for plane in &blocks {
        assert_eq!(plane.len(), CHUNK_Y_SIZE);
        for column in plane {
            assert_eq!(column.len(), CHUNK_Z_SIZE);
        }
    }
}

#[test]
fn flat_ground_shows_top_bottom_and_open_edges() {
    let blocks = Chunk::blocks_from_heights(&flat(2));
    assert_eq!(blocks[5][0][5].mat, STONE);
    assert_eq!(blocks[5][1][5].mat, GRASS);
    assert_eq!(blocks[5][2][5].mat, 0);
    // back, front, left, right, top, bottom
    assert_eq!(shown(&blocks[5][1][5]), vec![false, false, false, false, true, false]);
    assert_eq!(shown(&blocks[5][0][5]), vec![false, false, false, false, false, true]);
    assert_eq!(shown(&blocks[5][2][5]), vec![false; 6]);
    assert_eq!(shown(&blocks[0][1][5]), vec![false, false, true, false, true, false]);
    assert_eq!(shown(&blocks[15][1][5]), vec![false, false, false, true, true, false]);
    assert_eq!(shown(&blocks[5][1][0]), vec![true, false, false, false, true, false]);
    assert_eq!(shown(&blocks[5][1][15]), vec![false, true, false, false, true, false]);
    assert_eq!(shown(&blocks[0][0][0]), vec![true, false, true, false, false, true]);
    assert_eq!(face_total(&blocks), 256 + 256 + 4 * 16 * 2);
}

#[test]
fn full_column_shows_the_top_of_the_world() {
    let blocks = Chunk::blocks_from_heights(&flat(300));
    assert_eq!(blocks[3][255][3].mat, DIRT);
    assert_eq!(shown(&blocks[3][255][3]), vec![false, false, false, false, true, false]);
    assert_eq!(shown(&blocks[3][100][3]), vec![false; 6]);
    assert_eq!(face_total(&blocks), 256 + 256 + 4 * 16 * 256);
}

#[test]
fn uneven_ground_shows_the_steps() {
    let mut heights = flat(3);
    heights[4][7] = 5;
    let blocks = Chunk::blocks_from_heights(&heights);
    assert_eq!(blocks[4][4][7].mat, GRASS);
    assert_eq!(blocks[4][3][7].mat, STONE);
    assert_eq!(blocks[4][2][7].mat, STONE);
    assert_eq!(blocks[3][2][7].mat, GRASS);
    assert_eq!(shown(&blocks[4][4][7]), vec![true, true, true, true, true, false]);
    assert_eq!(shown(&blocks[4][3][7]), vec![true, true, true, true, false, false]);
    assert_eq!(shown(&blocks[4][2][7]), vec![false; 6]);
    assert_eq!(shown(&blocks[3][2][7]), vec![false, false, false, false, true, false]);
}

#[test]
fn mesh_has_four_vertices_and_six_indices_per_face() {
    for heights in [flat(0), flat(1), flat(2), flat(80), flat(300)] {
        let chunk = Chunk::from_heights([0, 0], &heights);
        let faces = face_total(&chunk.blocks);
        assert_eq!(chunk.mesh.vertices.len(), 4 * faces);
        assert_eq!(chunk.mesh.indices.len(), 6 * faces);
        assert_eq!(chunk.mesh.num_elements as usize, chunk.mesh.indices.len());
    }
}

#[test]
fn empty_chunk_has_an_empty_mesh() {
    let chunk = Chunk::from_heights([3, 4], &flat(0));
    assert!(chunk.mesh.vertices.is_empty());
    assert!(chunk.mesh.indices.is_empty());
    assert_eq!(chunk.mesh.num_elements, 0);
}

#[test]
fn mesh_rebuild_is_deterministic() {
    let mut heights = flat(4);
    heights[2][9] = 70;
    let blocks = Chunk::blocks_from_heights(&heights);
    let first = Mesh::new([-2, 7], &blocks);
    let second = Mesh::new([-2, 7], &blocks);
    assert_eq!(first, second);
    let mut chunk = Chunk::from_heights([-2, 7], &heights);
    assert_eq!(chunk.mesh, first);
    chunk.regenerate_mesh();
    assert_eq!(chunk.mesh, first);
}

#[test]
fn mesh_vertices_are_in_world_coordinates() {
    let chunk = Chunk::from_heights([1, -1], &flat(2));
    // cell (0, 0, 0) comes first; its back face is its first face
    assert_eq!(
        chunk.mesh.vertices[0..4].to_vec(),
        vec![
            BlockVertex { position: [17, 1, -16], tex_coords: [2, 0] },
            BlockVertex { position: [17, 0, -16], tex_coords: [3, 0] },
            BlockVertex { position: [16, 0, -16], tex_coords: [3, 1] },
            BlockVertex { position: [16, 1, -16], tex_coords: [2, 1] },
        ]
    );
    // then its left face
    assert_eq!(
        chunk.mesh.vertices[4..8].to_vec(),
        vec![
            BlockVertex { position: [16, 1, -16], tex_coords: [2, 0] },
            BlockVertex { position: [16, 0, -16], tex_coords: [3, 0] },
            BlockVertex { position: [16, 0, -15], tex_coords: [3, 1] },
            BlockVertex { position: [16, 1, -15], tex_coords: [2, 1] },
        ]
    );
    assert_eq!(chunk.mesh.indices[0..12].to_vec(), vec![0, 1, 2, 2, 3, 0, 4, 5, 6, 6, 7, 4]);
}

#[test]
fn mesh_indices_follow_the_quad_pattern() {
    let chunk = Chunk::from_heights([0, 0], &flat(3));
    let pattern = [0u32, 1, 2, 2, 3, 0];
    for (i, index) in chunk.mesh.indices.iter().enumerate() {
        assert_eq!(*index, 4 * (i as u32 / 6) + pattern[i % 6]);
    }
}

#[test]
fn mesh_at_the_far_corner_of_the_chunk_grid() {
    let chunk = Chunk::from_heights([i32::MAX, i32::MIN], &flat(1));
    let v = chunk.mesh.vertices[0];
    assert_eq!(v.position, [16 * (i32::MAX as i64) + 1, 1, 16 * (i32::MIN as i64)]);
}

#[test]
fn chunk_asks_the_height_function_with_world_coordinates() {
    let chunk = Chunk::new([1, -1], &|wx: i64, wz: i64| {
        if wx == 16 && wz == -16 {
            5
        } else if wx == 31 && wz == -1 {
            3
        } else {
            0
        }
    });
    assert_eq!(chunk.pos, [1, -1]);
    assert_eq!(chunk.blocks[0][4][0].mat, GRASS);
    assert_eq!(chunk.blocks[0][3][0].mat, STONE);
    assert_eq!(chunk.blocks[0][5][0].mat, 0);
    assert_eq!(chunk.blocks[15][2][15].mat, GRASS);
    assert_eq!(chunk.blocks[15][3][15].mat, 0);
    assert_eq!(chunk.blocks[1][0][0].mat, 0);
    let heights = Chunk::sample_heights([1, -1], &|wx: i64, wz: i64| (wx * 100 + wz) as usize);
    assert_eq!(heights[0][0], 16 * 100 - 16);
    assert_eq!(heights[15][3], 31 * 100 - 13);
    let same = Chunk::generate_blocks([1, -1], &|wx: i64, wz: i64| {
        if wx == 16 && wz == -16 {
            5
        } else if wx == 31 && wz == -1 {
            3
        } else {
            0
        }
    });
    assert_eq!(same, chunk.blocks);
    assert_eq!(chunk.mesh, Mesh::new([1, -1], &same));
}

#[test]
fn get_block_rejects_positions_outside_of_the_chunk() {
    let chunk = Chunk::from_heights([0, 0], &flat(2));
    assert_eq!(chunk.get_block([0, 0, 0]), Some(chunk.blocks[0][0][0]));
    assert_eq!(chunk.get_block([15, 255, 15]), Some(chunk.blocks[15][255][15]));
    assert_eq!(chunk.get_block([3, 1, 4]).unwrap().mat, GRASS);
    assert_eq!(chunk.get_block([-1, 0, 0]), None);
    assert_eq!(chunk.get_block([0, -1, 0]), None);
    assert_eq!(chunk.get_block([0, 0, -1]), None);
    assert_eq!(chunk.get_block([16, 0, 0]), None);
    assert_eq!(chunk.get_block([0, 256, 0]), None);
    assert_eq!(chunk.get_block([0, 0, 16]), None);
    assert_eq!(chunk.get_block([i32::MAX, i32::MAX, i32::MAX]), None);
    assert_eq!(chunk.get_block([i32::MIN, 0, 0]), None);
}

#[test]
fn chunk_knows_which_world_cells_it_covers() {
    let chunk = Chunk::from_heights([-2, 3], &flat(2));
    assert!(chunk.contains_position([-32, 0, 48]));
    assert!(chunk.contains_position([-17, 255, 63]));
    assert!(!chunk.contains_position([-33, 0, 48]));
    assert!(!chunk.contains_position([-16, 0, 48]));
    assert!(!chunk.contains_position([-32, -1, 48]));
    assert!(!chunk.contains_position([-32, 256, 48]));
    assert!(!chunk.contains_position([-32, 0, 47]));
    assert!(!chunk.contains_position([-32, 0, 64]));
    assert!(chunk.contains_block([-32, 0, 48]));
    assert!(chunk.contains_block([-17, 1, 63]));
    assert!(!chunk.contains_block([-17, 2, 63]));
    assert!(!chunk.contains_block([-16, 1, 63]));
    assert!(!chunk.contains_block([0, 0, 0]));
    assert_eq!(chunk.get_local_pos([-17, 1, 63]), [15, 1, 15]);
    assert_eq!(chunk.get_local_pos([0, 7, 0]), [32, 7, -48]);
}

#[test]
fn far_chunks_do_not_overflow() {
    let chunk = Chunk::from_heights([i32::MAX, i32::MIN], &flat(1));
    assert!(!chunk.contains_position([i32::MAX, 0, i32::MIN]));
    assert!(!chunk.contains_block([i32::MIN, 0, i32::MAX]));
    assert_eq!(
        chunk.get_local_pos([i32::MIN, 0, i32::MAX]),
        [i32::MIN as i64 - 16 * i32::MAX as i64, 0, i32::MAX as i64 - 16 * i32::MIN as i64]
    );
}

#[test]
fn breaking_a_block_opens_the_faces_around_it() {
    let mut chunk = Chunk::from_heights([2, 2], &flat(3));
    chunk.break_block([37, 2, 40]);
    assert_eq!(chunk.blocks[5][2][8].mat, 0);
    assert_eq!(shown(&chunk.blocks[5][2][8]), vec![false; 6]);
    assert_eq!(shown(&chunk.blocks[5][1][8]), vec![false, false, false, false, true, false]);
    assert_eq!(shown(&chunk.blocks[4][2][8]), vec![false, false, false, true, true, false]);
    assert_eq!(shown(&chunk.blocks[6][2][8]), vec![false, false, true, false, true, false]);
    assert_eq!(shown(&chunk.blocks[5][2][7]), vec![false, true, false, false, true, false]);
    assert_eq!(shown(&chunk.blocks[5][2][9]), vec![true, false, false, false, true, false]);
    assert_eq!(chunk.mesh, Mesh::new([2, 2], &chunk.blocks));
    let faces = face_total(&chunk.blocks);
    assert_eq!(faces, 256 + 256 + 4 * 16 * 3 + 4);
    assert_eq!(chunk.mesh.indices.len(), 6 * faces);
}

#[test]
fn breaking_outside_of_the_chunk_changes_nothing() {
    let mut chunk = Chunk::from_heights([2, 2], &flat(3));
    let blocks = chunk.blocks.clone();
    let mesh = chunk.mesh.clone();
    chunk.break_block([31, 2, 40]);
    chunk.break_block([48, 2, 40]);
    chunk.break_block([37, -1, 40]);
    chunk.break_block([37, 256, 40]);
    chunk.break_block([37, 2, 31]);
    chunk.break_block([37, 2, 48]);
    assert_eq!(chunk.blocks, blocks);
    assert_eq!(chunk.mesh, mesh);
    assert_eq!(chunk.pos, [2, 2]);
}

#[test]
fn placing_a_block_fills_an_empty_cell() {
    let mut chunk = Chunk::from_heights([0, 0], &flat(1));
    chunk.place_block([4, 1, 4]);
    assert_eq!(chunk.blocks[4][1][4].mat, PLACED);
    assert_eq!(shown(&chunk.blocks[4][1][4]), vec![true, true, true, true, true, false]);
    assert_eq!(shown(&chunk.blocks[4][0][4]), vec![false, false, false, false, false, true]);
    assert_eq!(chunk.mesh, Mesh::new([0, 0], &chunk.blocks));
    chunk.place_block([4, 10, 4]);
    assert_eq!(chunk.blocks[4][10][4].mat, PLACED);
    assert_eq!(shown(&chunk.blocks[4][10][4]), vec![true; 6]);
}

#[test]
fn placing_on_an_occupied_cell_or_outside_changes_nothing() {
    let mut chunk = Chunk::from_heights([0, 0], &flat(2));
    let blocks = chunk.blocks.clone();
    let mesh = chunk.mesh.clone();
    chunk.place_block([4, 1, 4]);
    chunk.place_block([4, 0, 4]);
    chunk.place_block([16, 5, 4]);
    chunk.place_block([4, 256, 4]);
    chunk.place_block([4, 5, -1]);
    assert_eq!(chunk.blocks, blocks);
    assert_eq!(chunk.mesh, mesh);
}

#[test]
fn update_block_faces_culls_against_the_chunk_alone() {
    let mut chunk = Chunk::from_heights([0, 0], &flat(2));
    let mesh = chunk.mesh.clone();
    chunk.blocks[5][5][5] = Block::new(STONE, [true; 6]);
    chunk.blocks[5][1][5] = Block::new(0, [false; 6]);
    chunk.update_block_faces();
    assert_eq!(shown(&chunk.blocks[5][5][5]), vec![true; 6]);
    assert_eq!(shown(&chunk.blocks[5][0][5]), vec![false, false, false, false, true, true]);
    assert_eq!(shown(&chunk.blocks[5][1][5]), vec![false; 6]);
    assert_eq!(chunk.mesh, mesh);
    chunk.regenerate_mesh();
    assert_eq!(chunk.mesh, Mesh::new([0, 0], &chunk.blocks));
    assert_ne!(chunk.mesh, mesh);
}

#[test]
fn chunks_are_equal_when_their_positions_are() {
    let a = Chunk::from_heights([1, 2], &flat(0));
    let b = Chunk::from_heights([1, 2], &flat(5));
    let c = Chunk::from_heights([2, 1], &flat(0));
    let d = Chunk::from_heights([1, 3], &flat(0));
    assert!(a == b);
    assert!(a != c);
    assert!(a != d);
}
