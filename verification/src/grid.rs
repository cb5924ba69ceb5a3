use vstd::prelude::*;
use crate::block::Block;
use crate::chunk::{CHUNK_X_SIZE, CHUNK_Y_SIZE, CHUNK_Z_SIZE};

verus! {

/// Whether `(x, y, z)` names a cell of a chunk.
pub open spec fn in_chunk(x: int, y: int, z: int) -> bool {
    0 <= x < CHUNK_X_SIZE && 0 <= y < CHUNK_Y_SIZE && 0 <= z < CHUNK_Z_SIZE
}

/// The world coordinate of the cell at `local` along one horizontal axis of
/// the chunk at `chunk` along that axis.
pub open spec fn world_coord(chunk: i32, local: int) -> int {
    chunk * 16 + local
}

/// Whether a grid of blocks has the dimensions of a chunk.
pub open spec fn grid_shaped(blocks: Vec<Vec<Vec<Block>>>) -> bool {
    &&& blocks.len() == CHUNK_X_SIZE
    &&& forall|x: int| 0 <= x < CHUNK_X_SIZE ==> (#[trigger] blocks[x]).len() == CHUNK_Y_SIZE
    &&& forall|x: int, y: int|
        0 <= x < CHUNK_X_SIZE && 0 <= y < CHUNK_Y_SIZE ==> (#[trigger] blocks[x][y]).len()
            == CHUNK_Z_SIZE
}

/// Whether a grid has the dimensions of a chunk and holds well-formed blocks.
pub open spec fn grid_wf(blocks: Vec<Vec<Vec<Block>>>) -> bool {
    &&& grid_shaped(blocks)
    &&& forall|x: int, y: int, z: int| in_chunk(x, y, z) ==> (#[trigger] blocks[x][y][z]).wf()
}

/// Whether two grids hold the same material in every cell.
pub open spec fn same_materials(a: Vec<Vec<Vec<Block>>>, b: Vec<Vec<Vec<Block>>>) -> bool {
    forall|x: int, y: int, z: int|
        in_chunk(x, y, z) ==> (#[trigger] a[x][y][z]).mat == b[x][y][z].mat
}

/// Whether two grids hold the same block in every cell.
pub open spec fn same_blocks(a: Vec<Vec<Vec<Block>>>, b: Vec<Vec<Vec<Block>>>) -> bool {
    forall|x: int, y: int, z: int| in_chunk(x, y, z) ==> #[trigger] a[x][y][z] == b[x][y][z]
}

/// The blocks of a grid, cell by cell.
pub open spec fn grid_view(blocks: Vec<Vec<Vec<Block>>>) -> Seq<Seq<Seq<Block>>> {
    Seq::new(blocks@.len(), |x: int| Seq::new(blocks[x]@.len(), |y: int| blocks[x][y]@))
}

/// Grids of the same dimensions that hold the same blocks have the same
/// view.
pub proof fn lemma_grid_view_by_blocks(a: Vec<Vec<Vec<Block>>>, b: Vec<Vec<Vec<Block>>>)
    requires
        grid_shaped(a),
        grid_shaped(b),
        same_blocks(a, b),
    ensures
        grid_view(a) == grid_view(b),
{
    assert forall|x: int| 0 <= x < CHUNK_X_SIZE implies grid_view(a)[x] == grid_view(b)[x] by {
        assert forall|y: int| 0 <= y < CHUNK_Y_SIZE implies grid_view(a)[x][y] == grid_view(
            b,
        )[x][y] by {
            assert forall|z: int| 0 <= z < CHUNK_Z_SIZE implies a[x][y]@[z] == b[x][y]@[z] by {
                assert(a[x][y][z] == b[x][y][z]);
            }
            assert(a[x][y]@ =~= b[x][y]@);
        }
        assert(grid_view(a)[x] =~= grid_view(b)[x]);
    }
    assert(grid_view(a) =~= grid_view(b));
}

} // verus!
