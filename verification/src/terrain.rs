use vstd::prelude::*;
use crate::block::{Block, BlockType, AIR};
use crate::chunk::{CHUNK_X_SIZE, CHUNK_Z_SIZE};
use crate::culling::self_culled;
use crate::grid::{grid_shaped, in_chunk, same_materials, world_coord};

verus! {

/// The material of the top layer of the ground.
pub const GRASS: BlockType = 1;

/// The material of the ground up to `STONE_HEIGHT`.
pub const STONE: BlockType = 2;

/// The material of the ground above `STONE_HEIGHT`, below the top layer.
pub const DIRT: BlockType = 3;

/// The highest layer that holds stone.
pub const STONE_HEIGHT: usize = 60;

/// The material of layer `y` of a column whose ground is `ground_height`
/// blocks high: a top layer of grass, below it dirt down to `STONE_HEIGHT`,
/// stone from there down, air above the ground.
pub open spec fn terrain_material(y: int, ground_height: int) -> BlockType {
    if ground_height > 0 && y == ground_height - 1 {
        GRASS
    } else if y < ground_height - 1 {
        if y <= STONE_HEIGHT {
            STONE
        } else {
            DIRT
        }
    } else {
        AIR
    }
}

/// Whether `heights` holds, for every column of the chunk at `pos`, a value
/// that `height_fn` returns for the world coordinates of that column.
pub open spec fn sampled<F: Fn(i64, i64) -> usize>(
    pos: [i32; 2],
    height_fn: &F,
    heights: [[usize; 16]; 16],
) -> bool {
    forall|x: int, z: int|
        0 <= x < CHUNK_X_SIZE && 0 <= z < CHUNK_Z_SIZE ==> height_fn.ensures(
            (world_coord(pos[0], x) as i64, world_coord(pos[1], z) as i64),
            #[trigger] heights[x][z],
        )
}

/// Whether every cell of the grid holds the material that the ground heights
/// `heights`, indexed by x, then z, call for.
pub open spec fn terrain_materials(blocks: Vec<Vec<Vec<Block>>>, heights: [[usize; 16]; 16]) -> bool {
    forall|x: int, y: int, z: int|
        in_chunk(x, y, z) ==> (#[trigger] blocks[x][y][z]).mat == terrain_material(
            y,
            heights[x][z] as int,
        )
}

/// Whether the grid holds the terrain of the ground heights `heights`, each
/// block showing the faces that no neighbour inside the grid hides.
pub open spec fn is_terrain(blocks: Vec<Vec<Vec<Block>>>, heights: [[usize; 16]; 16]) -> bool {
    &&& grid_shaped(blocks)
    &&& self_culled(blocks)
    &&& terrain_materials(blocks, heights)
}

/// Whether the grid holds, in every cell, the material of the terrain that
/// `height_fn` describes around the chunk at `pos`.
pub open spec fn on_terrain<F: Fn(i64, i64) -> usize>(
    pos: [i32; 2],
    blocks: Vec<Vec<Vec<Block>>>,
    height_fn: &F,
) -> bool {
    exists|heights: [[usize; 16]; 16]|
        sampled(pos, height_fn, heights) && terrain_materials(blocks, heights)
}

/// A grid that holds the materials of a grid on a terrain is on that terrain
/// too.
pub proof fn lemma_on_terrain_by_material<F: Fn(i64, i64) -> usize>(
    pos: [i32; 2],
    a: Vec<Vec<Vec<Block>>>,
    b: Vec<Vec<Vec<Block>>>,
    height_fn: &F,
)
    requires
        on_terrain(pos, a, height_fn),
        same_materials(b, a),
    ensures
        on_terrain(pos, b, height_fn),
{
    let heights = choose|heights: [[usize; 16]; 16]|
        sampled(pos, height_fn, heights) && terrain_materials(a, heights);
    assert forall|x: int, y: int, z: int| in_chunk(x, y, z) implies (#[trigger] b[x][y][z]).mat
        == terrain_material(y, heights[x][z] as int) by {
        assert(b[x][y][z].mat == a[x][y][z].mat);
    }
    assert(sampled(pos, height_fn, heights) && terrain_materials(b, heights));
}

} // verus!
