use vstd::prelude::*;
use crate::block::{Block, BlockType, FaceDirections, AIR};
use crate::chunk::{CHUNK_X_SIZE, CHUNK_Y_SIZE, CHUNK_Z_SIZE};
use crate::grid::{grid_shaped, grid_wf, in_chunk, same_materials};

verus! {

/// The materials of one side of a chunk, as a neighbouring chunk sees them:
/// indexed by the horizontal coordinate along the side, then by height.
pub type Boundary = Option<Vec<Vec<BlockType>>>;

/// Whether a boundary holds a solid block at horizontal coordinate `a` and
/// height `y`. A missing boundary, and a position outside of it, are open.
pub open spec fn plane_solid(plane: Boundary, a: int, y: int) -> bool {
    match plane {
        Some(p) => 0 <= a < p.len() && 0 <= y < p[a].len() && p[a][y] != AIR,
        None => false,
    }
}

/// Whether the cell next to `(x, y, z)` on the side of slot `slot` holds a
/// solid block. The neighbour is looked up in the grid where it lies inside,
/// and in the boundary of the adjoining chunk where it lies across a
/// horizontal edge. Above and below the grid there is nothing.
#[verifier::opaque]
pub open spec fn neighbour_solid(
    blocks: Vec<Vec<Vec<Block>>>,
    left: Boundary,
    right: Boundary,
    back: Boundary,
    front: Boundary,
    x: int,
    y: int,
    z: int,
    slot: int,
) -> bool {
    let n = FaceDirections::of_slot(slot).normal();
    let (nx, ny, nz) = (x + n.0, y + n.1, z + n.2);
    if in_chunk(nx, ny, nz) {
        blocks[nx][ny][nz].mat != AIR
    } else if nx < 0 {
        plane_solid(left, z, y)
    } else if nx >= CHUNK_X_SIZE {
        plane_solid(right, z, y)
    } else if nz < 0 {
        plane_solid(back, x, y)
    } else if nz >= CHUNK_Z_SIZE {
        plane_solid(front, x, y)
    } else {
        false
    }
}

/// For each side of the cell `(x, y, z)`, whether the neighbour on that side
/// hides it.
pub open spec fn hidden_sides(
    blocks: Vec<Vec<Vec<Block>>>,
    left: Boundary,
    right: Boundary,
    back: Boundary,
    front: Boundary,
    x: int,
    y: int,
    z: int,
) -> [bool; 6] {
    [
        neighbour_solid(blocks, left, right, back, front, x, y, z, 0),
        neighbour_solid(blocks, left, right, back, front, x, y, z, 1),
        neighbour_solid(blocks, left, right, back, front, x, y, z, 2),
        neighbour_solid(blocks, left, right, back, front, x, y, z, 3),
        neighbour_solid(blocks, left, right, back, front, x, y, z, 4),
        neighbour_solid(blocks, left, right, back, front, x, y, z, 5),
    ]
}

/// The block that belongs into cell `(x, y, z)`: the material that is there,
/// with a face on every side that no neighbour hides.
pub open spec fn culled_block(
    blocks: Vec<Vec<Vec<Block>>>,
    left: Boundary,
    right: Boundary,
    back: Boundary,
    front: Boundary,
    x: int,
    y: int,
    z: int,
) -> Block {
    Block::spec_new(blocks[x][y][z].mat, hidden_sides(blocks, left, right, back, front, x, y, z))
}

/// Whether every block of the grid shows exactly the faces that no neighbour
/// inside the grid hides, with all four edges of the grid open.
pub open spec fn self_culled(blocks: Vec<Vec<Vec<Block>>>) -> bool {
    forall|x: int, y: int, z: int|
        in_chunk(x, y, z) ==> #[trigger] blocks[x][y][z] == culled_block(
            blocks,
            None,
            None,
            None,
            None,
            x,
            y,
            z,
        )
}

/// The block that a recomputation of the faces leaves in cell `(x, y, z)`.
/// An air block is replaced only where `reset_air` asks for it.
pub open spec fn recomputed(
    blocks: Vec<Vec<Vec<Block>>>,
    left: Boundary,
    right: Boundary,
    back: Boundary,
    front: Boundary,
    reset_air: bool,
    x: int,
    y: int,
    z: int,
) -> Block {
    if blocks[x][y][z].mat == AIR && !reset_air {
        blocks[x][y][z]
    } else {
        culled_block(blocks, left, right, back, front, x, y, z)
    }
}

/// The sides that hide a face depend on the materials alone.
pub proof fn lemma_hidden_sides_by_material(
    a: Vec<Vec<Vec<Block>>>,
    b: Vec<Vec<Vec<Block>>>,
    left: Boundary,
    right: Boundary,
    back: Boundary,
    front: Boundary,
    x: int,
    y: int,
    z: int,
)
    requires
        same_materials(a, b),
        in_chunk(x, y, z),
    ensures
        hidden_sides(a, left, right, back, front, x, y, z) == hidden_sides(
            b,
            left,
            right,
            back,
            front,
            x,
            y,
            z,
        ),
        culled_block(a, left, right, back, front, x, y, z) == culled_block(
            b,
            left,
            right,
            back,
            front,
            x,
            y,
            z,
        ),
{
    reveal(neighbour_solid);
    let ha = hidden_sides(a, left, right, back, front, x, y, z);
    let hb = hidden_sides(b, left, right, back, front, x, y, z);
    assert forall|slot: int| 0 <= slot < 6 implies neighbour_solid(
        a,
        left,
        right,
        back,
        front,
        x,
        y,
        z,
        slot,
    ) == neighbour_solid(b, left, right, back, front, x, y, z, slot) by {
        let n = FaceDirections::of_slot(slot).normal();
        let (nx, ny, nz) = (x + n.0, y + n.1, z + n.2);
        if in_chunk(nx, ny, nz) {
            assert(a[nx][ny][nz].mat == b[nx][ny][nz].mat);
        }
    }
    assert(ha =~= hb);
    assert(a[x][y][z].mat == b[x][y][z].mat);
}

/// Whether a boundary holds a solid block at `(a, y)`.
pub fn plane_hides(plane: &Boundary, a: usize, y: usize) -> (hides: bool)
    ensures
        hides == plane_solid(*plane, a as int, y as int),
{
    match plane {
        Some(p) => {
            if a < p.len() {
                if y < p[a].len() {
                    p[a][y] != AIR
                } else {
                    false
                }
            } else {
                false
            }
        },
        None => false,
    }
}

/// For each side of the cell `(x, y, z)`, whether the neighbour on that side
/// hides it.
pub fn hidden_sides_at(
    blocks: &Vec<Vec<Vec<Block>>>,
    left: &Boundary,
    right: &Boundary,
    back: &Boundary,
    front: &Boundary,
    x: usize,
    y: usize,
    z: usize,
) -> (close_blocks: [bool; 6])
    requires
        grid_shaped(*blocks),
        in_chunk(x as int, y as int, z as int),
    ensures
        close_blocks == hidden_sides(
            *blocks,
            *left,
            *right,
            *back,
            *front,
            x as int,
            y as int,
            z as int,
        ),
{
    let ghost (gx, gy, gz) = (x as int, y as int, z as int);
    proof {
        reveal(neighbour_solid);
    }
    let hidden_back: bool = if z == 0 {
        plane_hides(back, x, y)
    } else {
        blocks[x][y][z - 1].mat != AIR
    };
    assert(hidden_back == neighbour_solid(*blocks, *left, *right, *back, *front, gx, gy, gz, 0));
    let hidden_front: bool = if z == CHUNK_Z_SIZE - 1 {
        plane_hides(front, x, y)
    } else {
        blocks[x][y][z + 1].mat != AIR
    };
    assert(hidden_front == neighbour_solid(*blocks, *left, *right, *back, *front, gx, gy, gz, 1));
    let hidden_left: bool = if x == 0 {
        plane_hides(left, z, y)
    } else {
        blocks[x - 1][y][z].mat != AIR
    };
    assert(hidden_left == neighbour_solid(*blocks, *left, *right, *back, *front, gx, gy, gz, 2));
    let hidden_right: bool = if x == CHUNK_X_SIZE - 1 {
        plane_hides(right, z, y)
    } else {
        blocks[x + 1][y][z].mat != AIR
    };
    assert(hidden_right == neighbour_solid(*blocks, *left, *right, *back, *front, gx, gy, gz, 3));
    let hidden_top: bool = if y == CHUNK_Y_SIZE - 1 {
        false
    } else {
        blocks[x][y + 1][z].mat != AIR
    };
    assert(hidden_top == neighbour_solid(*blocks, *left, *right, *back, *front, gx, gy, gz, 4));
    let hidden_bottom: bool = if y == 0 {
        false
    } else {
        blocks[x][y - 1][z].mat != AIR
    };
    assert(hidden_bottom == neighbour_solid(*blocks, *left, *right, *back, *front, gx, gy, gz, 5));
    let close_blocks: [bool; 6] = [
        hidden_back,
        hidden_front,
        hidden_left,
        hidden_right,
        hidden_top,
        hidden_bottom,
    ];
    assert(close_blocks =~= hidden_sides(*blocks, *left, *right, *back, *front, gx, gy, gz));
    close_blocks
}

/// Recomputes the faces of every block of the grid from the materials of its
/// neighbours. Air blocks are left as they are unless `reset_air` is set.
pub fn cull_faces(
    blocks: &mut Vec<Vec<Vec<Block>>>,
    left: &Boundary,
    right: &Boundary,
    back: &Boundary,
    front: &Boundary,
    reset_air: bool,
)
    requires
        grid_shaped(*old(blocks)),
    ensures
        grid_shaped(*final(blocks)),
        same_materials(*final(blocks), *old(blocks)),
        reset_air || grid_wf(*old(blocks)) ==> grid_wf(*final(blocks)),
        forall|x: int, y: int, z: int|
            in_chunk(x, y, z) ==> #[trigger] final(blocks)[x][y][z] == recomputed(
                *old(blocks),
                *left,
                *right,
                *back,
                *front,
                reset_air,
                x,
                y,
                z,
            ),
{
    let ghost before = *blocks;
    let mut x: usize = 0;
    while x < CHUNK_X_SIZE
        invariant
            x <= CHUNK_X_SIZE,
            grid_shaped(before),
            grid_shaped(*blocks),
            same_materials(*blocks, before),
            forall|i: int, j: int, k: int|
                in_chunk(i, j, k) ==> #[trigger] blocks[i][j][k] == (if i < x {
                    recomputed(before, *left, *right, *back, *front, reset_air, i, j, k)
                } else {
                    before[i][j][k]
                }),
        decreases CHUNK_X_SIZE - x,
    {
        let mut y: usize = 0;
        while y < CHUNK_Y_SIZE
            invariant
                x < CHUNK_X_SIZE,
                y <= CHUNK_Y_SIZE,
                grid_shaped(before),
                grid_shaped(*blocks),
                same_materials(*blocks, before),
                forall|i: int, j: int, k: int|
                    in_chunk(i, j, k) ==> #[trigger] blocks[i][j][k] == (if i < x || (i == x && j
                        < y) {
                        recomputed(before, *left, *right, *back, *front, reset_air, i, j, k)
                    } else {
                        before[i][j][k]
                    }),
            decreases CHUNK_Y_SIZE - y,
        {
            let mut z: usize = 0;
            while z < CHUNK_Z_SIZE
                invariant
                    x < CHUNK_X_SIZE,
                    y < CHUNK_Y_SIZE,
                    z <= CHUNK_Z_SIZE,
                    grid_shaped(before),
                    grid_shaped(*blocks),
                    same_materials(*blocks, before),
                    forall|i: int, j: int, k: int|
                        in_chunk(i, j, k) ==> #[trigger] blocks[i][j][k] == (if i < x || (i == x
                            && (j < y || (j == y && k < z))) {
                            recomputed(before, *left, *right, *back, *front, reset_air, i, j, k)
                        } else {
                            before[i][j][k]
                        }),
                decreases CHUNK_Z_SIZE - z,
            {
                let block_type = blocks[x][y][z].mat;
                if block_type == AIR {
                    if reset_air {
                        let block = Block::new(AIR, [false; 6]);
                        proof {
                            let want = culled_block(
                                before,
                                *left,
                                *right,
                                *back,
                                *front,
                                x as int,
                                y as int,
                                z as int,
                            );
                            assert(block.faces =~= want.faces);
                        }
                        blocks[x][y][z] = block;
                    }
                } else {
                    let close_blocks = hidden_sides_at(blocks, left, right, back, front, x, y, z);
                    proof {
                        lemma_hidden_sides_by_material(
                            *blocks,
                            before,
                            *left,
                            *right,
                            *back,
                            *front,
                            x as int,
                            y as int,
                            z as int,
                        );
                    }
                    blocks[x][y][z] = Block::new(block_type, close_blocks);
                }
                z += 1;
            }
            y += 1;
        }
        x += 1;
    }
    proof {
        if reset_air || grid_wf(before) {
            assert forall|i: int, j: int, k: int| in_chunk(i, j, k) implies (
            #[trigger] blocks[i][j][k]).wf() by {
                Block::lemma_new_is_wf(
                    before[i][j][k].mat,
                    hidden_sides(before, *left, *right, *back, *front, i, j, k),
                );
            }
        }
    }
}

/// Recomputes the faces of every block from the materials inside the grid,
/// with all four edges of the grid open.
pub fn cull_within(blocks: &mut Vec<Vec<Vec<Block>>>)
    requires
        grid_shaped(*old(blocks)),
    ensures
        grid_wf(*final(blocks)),
        same_materials(*final(blocks), *old(blocks)),
        self_culled(*final(blocks)),
{
    let ghost before = *blocks;
    let open: Boundary = None;
    cull_faces(blocks, &open, &open, &open, &open, true);
    proof {
        assert forall|x: int, y: int, z: int| in_chunk(x, y, z) implies #[trigger] blocks[x][y][z]
            == culled_block(*blocks, None, None, None, None, x, y, z) by {
            lemma_hidden_sides_by_material(*blocks, before, None, None, None, None, x, y, z);
        }
    }
}

} // verus!
