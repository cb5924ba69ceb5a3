use voxel_world::block::Block;
use voxel_world::chunk::{Chunk, Mesh, PLACED};
use voxel_world::terrain::{GRASS, STONE};
use voxel_world::player::Player;
use voxel_world::world::World;

fn shown(block: &Block) -> Vec<bool> {
    block.faces.iter().map(|f| f.is_some()).collect()
}

fn state(world: &World) -> Vec<([i32; 2], Vec<Vec<Vec<Block>>>, Mesh)> {
    world.chunks.iter().map(|c| (c.pos, c.blocks.clone(), c.mesh.clone())).collect()
}

fn meshes_are_current(world: &World) -> bool {
    world.chunks.iter().all(|c| c.mesh == Mesh::new(c.pos, &c.blocks))
}

/// Solid up to the top of the world west of x = 16, empty east of it.
fn cliff(wx: i64, _wz: i64) -> usize {
    if wx < 16 {
        300
    } else {
        0
    }
}

/// Ground of height 3 everywhere.
fn plain(_wx: i64, _wz: i64) -> usize {
    3
}

#[test]
fn region_is_filled_row_by_row() {
    let world = World::generate(&|_: i64, _: i64| 0, [-1, 2], [1, 5]);
    let positions: Vec<[i32; 2]> = world.chunks.iter().map(|c| c.pos).collect();
    assert_eq!(positions, vec![[-1, 2], [-1, 3], [-1, 4], [0, 2], [0, 3], [0, 4]]);
    assert_eq!(world.find_chunk([0, 3]), Some(4));
    assert_eq!(world.find_chunk([-1, 2]), Some(0));
    assert_eq!(world.find_chunk([1, 2]), None);
    assert_eq!(world.find_chunk([0, 5]), None);
}

#[test]
fn empty_region_gives_an_empty_world() {
    assert!(World::generate(&plain, [3, 3], [3, 9]).chunks.is_empty());
    assert!(World::generate(&plain, [3, 3], [9, 3]).chunks.is_empty());
    assert!(World::generate(&plain, [3, 3], [0, 0]).chunks.is_empty());
    assert!(World::generate(&plain, [5, 0], [-5, 4]).chunks.is_empty());
}

#[test]
fn lone_chunk_keeps_its_edges_open() {
    let world = World::generate(&plain, [0, 0], [1, 1]);
    let alone = Chunk::new([0, 0], &plain);
    assert_eq!(world.chunks.len(), 1);
    assert_eq!(world.chunks[0].blocks, alone.blocks);
    assert_eq!(world.chunks[0].mesh, alone.mesh);
}

#[test]
fn single_column_break_exposes_the_block_below() {
    let column = |wx: i64, wz: i64| if wx == 0 && wz == 0 { 2 } else { 0 };
    let mut world = World::generate(&column, [0, 0], [1, 1]);
    assert_eq!(world.chunks[0].blocks[0][0][0].mat, STONE);
    assert_eq!(world.chunks[0].blocks[0][1][0].mat, GRASS);
    for y in 2..256 {
        assert_eq!(world.chunks[0].blocks[0][y][0].mat, 0);
    }
    assert_eq!(shown(&world.chunks[0].blocks[0][0][0]), vec![true, true, true, true, false, true]);
    let down: Vec<[i32; 3]> = vec![[0, 4, 0], [0, 3, 0], [0, 2, 0], [0, 1, 0], [0, 0, 0]];
    assert_eq!(Player::get_block_pointed_at(&world.chunks, &down), Some([0, 1, 0]));

    let rebuilt = world.break_block([0, 1, 0]);
    assert_eq!(rebuilt, vec![0]);
    assert_eq!(world.chunks[0].get_block([0, 1, 0]).unwrap().mat, 0);
    assert!(world.chunks[0].get_block([0, 1, 0]).unwrap().is_air());
    assert_eq!(world.chunks[0].blocks[0][0][0].mat, STONE);
    assert_eq!(shown(&world.chunks[0].blocks[0][0][0]), vec![true; 6]);
    assert!(meshes_are_current(&world));
    assert_eq!(world.chunks[0].mesh.indices.len(), 36);
    assert_eq!(Player::get_block_pointed_at(&world.chunks, &down), Some([0, 0, 0]));
}

#[test]
fn stitching_against_an_empty_neighbour_keeps_the_face() {
    let before = Chunk::new([0, 0], &cliff);
    // A chunk on its own treats its edges as open.
    assert_eq!(shown(&before.blocks[15][100][7]), vec![false, false, false, true, false, false]);
    let world = World::generate(&cliff, [0, 0], [2, 1]);
    assert_eq!(world.chunks[1].pos, [1, 0]);
    assert_eq!(world.chunks[1].blocks[0][100][7].mat, 0);
    assert_eq!(shown(&world.chunks[0].blocks[15][100][7]), vec![false, false, false, true, false, false]);
    assert_eq!(world.chunks[0].blocks, before.blocks);
    assert!(world.chunks[1].mesh.indices.is_empty());
    assert!(meshes_are_current(&world));
}

#[test]
fn stitching_against_a_solid_neighbour_hides_the_face() {
    let solid = |_: i64, _: i64| 300usize;
    let alone = Chunk::new([0, 0], &solid);
    assert_eq!(shown(&alone.blocks[15][100][7]), vec![false, false, false, true, false, false]);
    assert_eq!(shown(&alone.blocks[0][100][7]), vec![false, false, true, false, false, false]);
    let world = World::generate(&solid, [0, 0], [2, 1]);
    assert_eq!(shown(&world.chunks[0].blocks[15][100][7]), vec![false; 6]);
    assert_eq!(shown(&world.chunks[1].blocks[0][100][7]), vec![false; 6]);
    // the outer edges of the world stay open
    assert_eq!(shown(&world.chunks[0].blocks[0][100][7]), vec![false, false, true, false, false, false]);
    assert_eq!(shown(&world.chunks[1].blocks[15][100][7]), vec![false, false, false, true, false, false]);
    assert_eq!(shown(&world.chunks[0].blocks[15][100][0]), vec![true, false, false, false, false, false]);
    assert!(meshes_are_current(&world));
}

#[test]
fn boundary_faces_mirror_the_neighbour_along_x() {
    let steps = |wx: i64, wz: i64| ((wx * 7 + wz * 13).rem_euclid(40)) as usize;
    let world = World::generate(&steps, [-1, 0], [1, 1]);
    let (a, b) = (&world.chunks[0], &world.chunks[1]);
    assert_eq!((a.pos, b.pos), ([-1, 0], [0, 0]));
    for y in 0..48usize {
        for z in 0..16usize {
            let (left, right) = (&a.blocks[15][y][z], &b.blocks[0][y][z]);
            if left.mat != 0 {
                assert_eq!(left.faces[3].is_some(), right.mat == 0);
            } else {
                assert!(left.faces[3].is_none());
            }
            if right.mat != 0 {
                assert_eq!(right.faces[2].is_some(), left.mat == 0);
            } else {
                assert!(right.faces[2].is_none());
            }
        }
    }
}

#[test]
fn boundary_faces_mirror_the_neighbour_along_z() {
    let steps = |wx: i64, wz: i64| ((wx * 5 + wz * 11).rem_euclid(30)) as usize;
    let world = World::generate(&steps, [0, -1], [1, 1]);
    let (a, b) = (&world.chunks[0], &world.chunks[1]);
    assert_eq!((a.pos, b.pos), ([0, -1], [0, 0]));
    for y in 0..40usize {
        for x in 0..16usize {
            let (back, front) = (&a.blocks[x][y][15], &b.blocks[x][y][0]);
            if back.mat != 0 {
                assert_eq!(back.faces[1].is_some(), front.mat == 0);
            }
            if front.mat != 0 {
                assert_eq!(front.faces[0].is_some(), back.mat == 0);
            }
        }
    }
}

#[test]
fn breaking_on_an_edge_rebuilds_the_neighbour() {
    let mut world = World::generate(&plain, [0, 0], [2, 2]);
    // chunks: 0 at (0,0), 1 at (0,1), 2 at (1,0), 3 at (1,1)
    assert_eq!(shown(&world.chunks[2].blocks[0][2][5]), vec![false, false, false, false, true, false]);
    let rebuilt = world.break_block([15, 2, 5]);
    assert_eq!(rebuilt, vec![0, 2]);
    assert_eq!(world.chunks[0].blocks[15][2][5].mat, 0);
    assert_eq!(shown(&world.chunks[2].blocks[0][2][5]), vec![false, false, true, false, true, false]);
    assert_eq!(shown(&world.chunks[0].blocks[14][2][5]), vec![false, false, false, true, true, false]);
    assert_eq!(shown(&world.chunks[0].blocks[15][1][5]), vec![false, false, false, false, true, false]);
    assert!(meshes_are_current(&world));
}

#[test]
fn breaking_in_a_corner_rebuilds_both_neighbours() {
    let mut world = World::generate(&plain, [0, 0], [2, 2]);
    let rebuilt = world.break_block([16, 2, 16]);
    // the cell is (0, 2, 0) of the chunk at (1, 1): towards -X lies (0, 1), towards -Z lies (1, 0)
    assert_eq!(rebuilt, vec![3, 1, 2]);
    assert_eq!(world.chunks[3].blocks[0][2][0].mat, 0);
    assert_eq!(shown(&world.chunks[1].blocks[15][2][0]), vec![false, false, false, true, true, false]);
    assert_eq!(shown(&world.chunks[2].blocks[0][2][15]), vec![false, true, false, false, true, false]);
    assert_eq!(shown(&world.chunks[0].blocks[15][2][15]), vec![false, false, false, false, true, false]);
    assert!(meshes_are_current(&world));
    let rebuilt = world.break_block([15, 2, 15]);
    assert_eq!(rebuilt, vec![0, 2, 1]);
    assert!(meshes_are_current(&world));
}

#[test]
fn breaking_inside_a_chunk_touches_that_chunk_alone() {
    let mut world = World::generate(&plain, [0, 0], [2, 1]);
    let other = state(&world)[1].clone();
    let rebuilt = world.break_block([7, 2, 7]);
    assert_eq!(rebuilt, vec![0]);
    assert_eq!(state(&world)[1], other);
    assert_eq!(world.chunks[0].blocks[7][2][7].mat, 0);
    assert!(meshes_are_current(&world));
}

#[test]
fn breaking_on_the_edge_of_the_world() {
    let mut world = World::generate(&plain, [0, 0], [1, 1]);
    assert_eq!(world.break_block([0, 2, 0]), vec![0]);
    assert_eq!(world.break_block([15, 2, 15]), vec![0]);
    assert_eq!(world.chunks[0].blocks[0][2][0].mat, 0);
    assert_eq!(world.chunks[0].blocks[15][2][15].mat, 0);
    assert!(meshes_are_current(&world));
}

#[test]
fn breaking_where_there_is_nothing_changes_nothing() {
    let mut world = World::generate(&plain, [0, 0], [2, 1]);
    let before = state(&world);
    assert_eq!(world.break_block([100, 2, 5]), Vec::<usize>::new());
    assert_eq!(world.break_block([-1, 2, 5]), Vec::<usize>::new());
    assert_eq!(world.break_block([5, 2, 16]), Vec::<usize>::new());
    assert_eq!(world.break_block([5, -1, 5]), Vec::<usize>::new());
    assert_eq!(world.break_block([5, 256, 5]), Vec::<usize>::new());
    // air
    assert_eq!(world.break_block([5, 3, 5]), Vec::<usize>::new());
    assert_eq!(world.break_block([i32::MAX, i32::MAX, i32::MIN]), Vec::<usize>::new());
    assert_eq!(state(&world), before);
}

#[test]
fn breaking_in_an_empty_world() {
    let mut world = World { chunks: Vec::new() };
    assert_eq!(world.break_block([0, 0, 0]), Vec::<usize>::new());
    assert_eq!(world.place_block([0, 0, 0]), Vec::<usize>::new());
    assert!(world.chunks.is_empty());
}

#[test]
fn placing_on_an_occupied_cell_changes_nothing() {
    let mut world = World::generate(&plain, [0, 0], [2, 1]);
    let before = state(&world);
    assert_eq!(world.place_block([7, 2, 7]), vec![0]);
    assert_eq!(state(&world), before);
    assert_eq!(world.place_block([15, 0, 3]), vec![0, 1]);
    assert_eq!(world.place_block([16, 1, 3]), vec![1, 0]);
    assert_eq!(state(&world), before);
}

#[test]
fn placing_where_no_chunk_is_changes_nothing() {
    let mut world = World::generate(&plain, [0, 0], [2, 1]);
    let before = state(&world);
    assert_eq!(world.place_block([32, 5, 5]), Vec::<usize>::new());
    assert_eq!(world.place_block([5, 5, -1]), Vec::<usize>::new());
    assert_eq!(world.place_block([5, 256, 5]), Vec::<usize>::new());
    assert_eq!(world.place_block([5, -1, 5]), Vec::<usize>::new());
    assert_eq!(state(&world), before);
}

#[test]
fn placing_fills_an_empty_cell() {
    let mut world = World::generate(&plain, [0, 0], [2, 1]);
    let rebuilt = world.place_block([7, 3, 7]);
    assert_eq!(rebuilt, vec![0]);
    assert_eq!(world.chunks[0].blocks[7][3][7].mat, PLACED);
    assert_eq!(shown(&world.chunks[0].blocks[7][3][7]), vec![true, true, true, true, true, false]);
    assert_eq!(shown(&world.chunks[0].blocks[7][2][7]), vec![false; 6]);
    assert!(meshes_are_current(&world));
}

#[test]
fn placing_on_an_edge_hides_the_neighbours_face() {
    let ramp = |wx: i64, _: i64| if wx < 16 { 3usize } else { 5 };
    let mut world = World::generate(&ramp, [0, 0], [2, 1]);
    // the higher chunk shows its left faces above the lower ground
    assert_eq!(shown(&world.chunks[1].blocks[0][3][4]), vec![false, false, true, false, false, false]);
    let rebuilt = world.place_block([15, 3, 4]);
    assert_eq!(rebuilt, vec![0, 1]);
    assert_eq!(world.chunks[0].blocks[15][3][4].mat, PLACED);
    assert_eq!(shown(&world.chunks[1].blocks[0][3][4]), vec![false; 6]);
    assert_eq!(shown(&world.chunks[0].blocks[15][3][4]), vec![true, true, true, false, true, false]);
    assert!(meshes_are_current(&world));
    // and breaking it again brings the world back
    let fresh = World::generate(&ramp, [0, 0], [2, 1]);
    assert_eq!(world.break_block([15, 3, 4]), vec![0, 1]);
    assert_eq!(state(&world), state(&fresh));
}

#[test]
fn edits_with_negative_coordinates() {
    let mut world = World::generate(&plain, [-1, -1], [1, 1]);
    // chunks: 0 at (-1,-1), 1 at (-1,0), 2 at (0,-1), 3 at (0,0)
    let rebuilt = world.break_block([-1, 2, -1]);
    assert_eq!(rebuilt, vec![0, 2, 1]);
    assert_eq!(world.chunks[0].blocks[15][2][15].mat, 0);
    assert_eq!(shown(&world.chunks[2].blocks[0][2][15]), vec![false, false, true, false, true, false]);
    assert_eq!(shown(&world.chunks[1].blocks[15][2][0]), vec![true, false, false, false, true, false]);
    let rebuilt = world.place_block([-16, 3, -16]);
    assert_eq!(rebuilt, vec![0]);
    assert_eq!(world.chunks[0].blocks[0][3][0].mat, PLACED);
    assert!(meshes_are_current(&world));
}

#[test]
fn boundary_planes_of_a_chunk() {
    let slope = |wx: i64, wz: i64| (1 + wx + 2 * wz) as usize;
    let chunk = Chunk::new([0, 0], &slope);
    let back = World::get_boundary_blocks(&chunk, 0);
    let front = World::get_boundary_blocks(&chunk, 1);
    let left = World::get_boundary_blocks(&chunk, 2);
    let right = World::get_boundary_blocks(&chunk, 3);
    let none = World::get_boundary_blocks(&chunk, 7);
    for plane in [&back, &front, &left, &right, &none] {
        assert_eq!(plane.len(), 16);
        assert!(plane.iter().all(|column| column.len() == 256));
    }
    for a in 0..16usize {
        for y in 0..256usize {
            assert_eq!(back[a][y], chunk.blocks[a][y][0].mat);
            assert_eq!(front[a][y], chunk.blocks[a][y][15].mat);
            assert_eq!(left[a][y], chunk.blocks[0][y][a].mat);
            assert_eq!(right[a][y], chunk.blocks[15][y][a].mat);
            assert_eq!(none[a][y], 0);
        }
    }
    assert_eq!(back[3][3], GRASS);
    assert_eq!(back[3][4], 0);
    assert_eq!(front[3][33], GRASS);
    assert_eq!(left[3][6], GRASS);
    assert_eq!(right[3][21], GRASS);
}

#[test]
fn faces_against_given_boundaries() {
    let solid = |_: i64, _: i64| 300usize;
    let mut chunk = Chunk::new([0, 0], &solid);
    let mesh = chunk.mesh.clone();
    let wall = vec![vec![STONE; 256]; 16];
    let mut holed = wall.clone();
    holed[4][9] = 0;
    let short = vec![vec![STONE; 10]; 3];
    World::update_chunk_faces_with_neighbor_blocks(
        &mut chunk,
        Some(holed),
        None,
        Some(short),
        Some(wall),
    );
    // left: hidden but for the hole, which is at z = 4, y = 9
    assert_eq!(shown(&chunk.blocks[0][9][3]), vec![false; 6]);
    assert_eq!(shown(&chunk.blocks[0][9][4]), vec![false, false, true, false, false, false]);
    // right: open
    assert_eq!(shown(&chunk.blocks[15][9][4]), vec![false, false, false, true, false, false]);
    // back: hidden only where the short boundary reaches, x < 3 and y < 10
    assert_eq!(shown(&chunk.blocks[2][9][0]), vec![false; 6]);
    assert_eq!(shown(&chunk.blocks[3][9][0]), vec![true, false, false, false, false, false]);
    assert_eq!(shown(&chunk.blocks[2][10][0]), vec![true, false, false, false, false, false]);
    // front: hidden
    assert_eq!(shown(&chunk.blocks[7][9][15]), vec![false; 6]);
    // top and bottom of the world stay open
    assert_eq!(shown(&chunk.blocks[7][255][7]), vec![false, false, false, false, true, false]);
    assert_eq!(shown(&chunk.blocks[7][0][7]), vec![false, false, false, false, false, true]);
    // the mesh waits for a rebuild
    assert_eq!(chunk.mesh, mesh);
}

#[test]
fn update_chunk_mesh_settles_a_disturbed_chunk() {
    let mut world = World::generate(&plain, [0, 0], [2, 1]);
    let settled = state(&world);
    world.chunks[1].update_block_faces();
    assert_ne!(state(&world), settled);
    world.update_chunk_mesh(1);
    assert_eq!(state(&world), settled);
    world.update_chunk_mesh(0);
    assert_eq!(state(&world), settled);
}
