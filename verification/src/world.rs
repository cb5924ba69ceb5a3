use vstd::prelude::*;
use crate::block::{Block, BlockType, FaceDirections, AIR};
use crate::chunk::{Chunk, ChunkView, CHUNK_X_SIZE, CHUNK_Y_SIZE, CHUNK_Z_SIZE, PLACED};
use crate::culling::{cull_faces, neighbour_solid, recomputed, Boundary};
use crate::grid::{grid_shaped, grid_wf, in_chunk, same_materials, world_coord};
use crate::terrain::{lemma_on_terrain_by_material, on_terrain};

verus! {

/// Half the width of the world that `World::new` builds, in chunks.
pub const WORLD_SIZE: i32 = 5;

/// The material that the side `face` of a grid shows at horizontal
/// coordinate `a` and height `y`. Side 0 is the plane `z = 0`, side 1 the
/// plane `z = 15`, side 2 the plane `x = 0`, side 3 the plane `x = 15`; any
/// other number names no side, and the plane is empty.
pub open spec fn boundary_material(blocks: Vec<Vec<Vec<Block>>>, face: int, a: int, y: int) -> BlockType {
    if face == 0 {
        blocks[a][y][0].mat
    } else if face == 1 {
        blocks[a][y][CHUNK_Z_SIZE - 1].mat
    } else if face == 2 {
        blocks[0][y][a].mat
    } else if face == 3 {
        blocks[CHUNK_X_SIZE - 1][y][a].mat
    } else {
        AIR
    }
}

/// Whether `plane` holds the materials of the side `face` of a grid.
pub open spec fn is_boundary(plane: Vec<Vec<BlockType>>, blocks: Vec<Vec<Vec<Block>>>, face: int) -> bool {
    &&& plane.len() == 16
    &&& forall|a: int| 0 <= a < 16 ==> (#[trigger] plane[a]).len() == CHUNK_Y_SIZE
    &&& forall|a: int, y: int|
        0 <= a < 16 && 0 <= y < CHUNK_Y_SIZE ==> #[trigger] plane[a][y] == boundary_material(
            blocks,
            face,
            a,
            y,
        )
}

/// The chunks of a bounded region of the world.
///
/// No two chunks have the same position. Between edits every block shows a
/// face exactly where the cell next to it, in its own chunk or in the
/// adjoining one, is air or lies outside of the world, and every mesh is the
/// mesh of its chunk's blocks.
#[derive(Clone, Debug)]
pub struct World {
    pub chunks: Vec<Chunk>,
}

impl View for World {
    type V = Seq<ChunkView>;

    open spec fn view(&self) -> Seq<ChunkView> {
        Seq::new(self.chunks@.len(), |i: int| self.chunks[i]@)
    }
}

impl World {
    /// Whether no two chunks have the same position.
    pub open spec fn distinct(&self) -> bool {
        forall|i: int, j: int|
            0 <= i < j < self.chunks.len() ==> (#[trigger] self.chunks[i]).pos[0] != (
            #[trigger] self.chunks[j]).pos[0] || self.chunks[i].pos[1] != self.chunks[j].pos[1]
    }

    /// Whether every chunk has a grid of the right dimensions that holds
    /// well-formed blocks.
    pub open spec fn grids_wf(&self) -> bool {
        forall|i: int| 0 <= i < self.chunks.len() ==> grid_wf((#[trigger] self.chunks[i]).blocks)
    }

    /// Whether the chunk at index `i` is at the chunk position `(cx, cz)`.
    pub open spec fn is_at(&self, i: int, cx: int, cz: int) -> bool {
        0 <= i < self.chunks.len() && self.chunks[i].pos[0] == cx && self.chunks[i].pos[1] == cz
    }

    /// Whether the world has a chunk at the chunk position `(cx, cz)`.
    pub open spec fn has_chunk(&self, cx: int, cz: int) -> bool {
        exists|i: int| self.is_at(i, cx, cz)
    }

    /// The index of a chunk at the chunk position `(cx, cz)`.
    pub open spec fn chunk_index(&self, cx: int, cz: int) -> int {
        choose|i: int| self.is_at(i, cx, cz)
    }

    /// Whether `found` is the first index of a chunk at `(cx, cz)`, or
    /// `None` where there is no such chunk.
    pub open spec fn is_first_at(&self, found: Option<usize>, cx: int, cz: int) -> bool {
        match found {
            Some(i) => self.is_at(i as int, cx, cz) && forall|j: int|
                0 <= j < i ==> !self.is_at(j, cx, cz),
            None => !self.has_chunk(cx, cz),
        }
    }

    /// Whether the chunk at index `i` covers the world cell `pos`.
    pub open spec fn holds(&self, i: int, pos: [i32; 3]) -> bool {
        0 <= i < self.chunks.len() && self.chunks[i].spec_contains_position(pos)
    }

    /// Whether some chunk covers the world cell `pos`.
    pub open spec fn covers(&self, pos: [i32; 3]) -> bool {
        exists|i: int| self.holds(i, pos)
    }

    /// The index of a chunk that covers the world cell `pos`.
    pub open spec fn holder(&self, pos: [i32; 3]) -> int {
        choose|i: int| self.holds(i, pos)
    }

    /// The material of the world cell `pos`, read from the chunk that covers
    /// it. A cell that no chunk covers holds air.
    pub open spec fn material_of(&self, pos: [i32; 3]) -> BlockType {
        if self.covers(pos) {
            let cell = self.chunks[self.holder(pos)].local_of(pos);
            self.chunks[self.holder(pos)].blocks[cell.0][cell.1][cell.2].mat
        } else {
            AIR
        }
    }

    /// The material of the cell `(x, y, z)` of the chunk at the chunk
    /// position `(cx, cz)`. Where the world has no such chunk, and outside of
    /// a chunk's cells, there is air.
    #[verifier::opaque]
    pub open spec fn material_in(&self, cx: int, cz: int, x: int, y: int, z: int) -> BlockType {
        if in_chunk(x, y, z) && self.has_chunk(cx, cz) {
            self.chunks[self.chunk_index(cx, cz)].blocks[x][y][z].mat
        } else {
            AIR
        }
    }

    /// The material of the world cell `(wx, wy, wz)`. Outside of the chunks of
    /// the world there is air.
    pub open spec fn material_at(&self, wx: int, wy: int, wz: int) -> BlockType {
        self.material_in(wx / 16, wz / 16, wx % 16, wy, wz % 16)
    }

    /// Whether the world cell next to the cell `(x, y, z)` of the chunk at
    /// index `i`, on the side of slot `slot`, holds a solid block.
    pub open spec fn side_hidden(&self, i: int, x: int, y: int, z: int, slot: int) -> bool {
        let n = FaceDirections::of_slot(slot).normal();
        let c = self.chunks[i];
        self.material_at(
            world_coord(c.pos[0], x) + n.0,
            y + n.1,
            world_coord(c.pos[1], z) + n.2,
        ) != AIR
    }

    /// For each side of the cell `(x, y, z)` of the chunk at index `i`,
    /// whether the world cell on that side hides it.
    pub open spec fn hidden_sides(&self, i: int, x: int, y: int, z: int) -> [bool; 6] {
        [
            self.side_hidden(i, x, y, z, 0),
            self.side_hidden(i, x, y, z, 1),
            self.side_hidden(i, x, y, z, 2),
            self.side_hidden(i, x, y, z, 3),
            self.side_hidden(i, x, y, z, 4),
            self.side_hidden(i, x, y, z, 5),
        ]
    }

    /// The block that belongs into the cell `(x, y, z)` of the chunk at index
    /// `i`: the material that is there, with a face on every side on which
    /// the next world cell is air.
    pub open spec fn stitched_block(&self, i: int, x: int, y: int, z: int) -> Block {
        Block::spec_new(self.chunks[i].blocks[x][y][z].mat, self.hidden_sides(i, x, y, z))
    }

    /// Whether every block of the chunk at index `i` shows the faces that the
    /// materials of the world call for.
    pub open spec fn stitched(&self, i: int) -> bool {
        forall|x: int, y: int, z: int|
            in_chunk(x, y, z) ==> #[trigger] self.chunks[i].blocks[x][y][z] == self.stitched_block(
                i,
                x,
                y,
                z,
            )
    }

    /// Whether the chunk at index `i` is well formed and shows the faces that
    /// the materials of the world call for.
    pub open spec fn settled(&self, i: int) -> bool {
        self.chunks[i].wf() && self.stitched(i)
    }

    /// The invariant of a world: no two chunks share a position, every chunk
    /// is well formed, and every block shows a face exactly where the world
    /// cell next to it holds no solid block.
    pub open spec fn wf(&self) -> bool {
        &&& self.distinct()
        &&& forall|i: int|
            0 <= i < self.chunks.len() ==> (#[trigger] self.chunks[i]).wf() && self.stitched(i)
    }

    /// Whether `plane` is what the chunk at `(cx, cz)` shows on its side
    /// `face`: the materials of that side, or `None` where the world has no
    /// chunk there.
    pub open spec fn is_side_of(&self, plane: Boundary, cx: int, cz: int, face: int) -> bool {
        match plane {
            Some(p) => self.has_chunk(cx, cz) && is_boundary(
                p,
                self.chunks[self.chunk_index(cx, cz)].blocks,
                face,
            ),
            None => !self.has_chunk(cx, cz),
        }
    }

    /// Whether two worlds have the same chunk positions and hold the same
    /// material in every cell.
    pub open spec fn same_materials_as(&self, other: &World) -> bool {
        &&& self.chunks.len() == other.chunks.len()
        &&& forall|i: int|
            0 <= i < self.chunks.len() ==> {
                &&& (#[trigger] self.chunks[i]).pos == other.chunks[i].pos
                &&& same_materials(self.chunks[i].blocks, other.chunks[i].blocks)
            }
    }

    /// Whether this world has the chunk positions of `before` and holds the
    /// materials of `before`, but for the cell `cell` of the chunk at index
    /// `i`, which holds `mat`.
    pub open spec fn edited_from(
        &self,
        before: &World,
        i: int,
        cell: (int, int, int),
        mat: BlockType,
    ) -> bool {
        &&& self.chunks.len() == before.chunks.len()
        &&& forall|j: int|
            0 <= j < self.chunks.len() ==> (#[trigger] self.chunks[j]).pos == before.chunks[j].pos
        &&& forall|j: int, x: int, y: int, z: int|
            0 <= j < self.chunks.len() && in_chunk(x, y, z) ==> (
            #[trigger] self.chunks[j].blocks[x][y][z]).mat == (if j == i && (x, y, z) == cell {
                mat
            } else {
                before.chunks[j].blocks[x][y][z].mat
            })
    }

    /// The material that the world cell `pos`, which the chunk at index `i`
    /// covers, holds after an edit: air after a block was broken; after a
    /// block was placed, the block that was there or else the placed one.
    pub open spec fn material_after(&self, i: int, pos: [i32; 3], place: bool) -> BlockType {
        let cell = self.chunks[i].local_of(pos);
        let held = self.chunks[i].blocks[cell.0][cell.1][cell.2].mat;
        if !place {
            AIR
        } else if held != AIR {
            held
        } else {
            PLACED
        }
    }

    /// Whether the chunk at index `j` adjoins the chunk at index `i` along
    /// an edge on which the cell `cell` of the chunk at `i` lies.
    pub open spec fn edge_neighbour(&self, j: int, i: int, cell: (int, int, int)) -> bool {
        let a = self.chunks[j].pos;
        let b = self.chunks[i].pos;
        ||| (cell.0 == 0 && a[0] == b[0] - 1 && a[1] == b[1])
        ||| (cell.0 == 15 && a[0] == b[0] + 1 && a[1] == b[1])
        ||| (cell.2 == 0 && a[0] == b[0] && a[1] == b[1] - 1)
        ||| (cell.2 == 15 && a[0] == b[0] && a[1] == b[1] + 1)
    }

    /// Whether the chunk at index `j` adjoins the chunk position `pos` along
    /// an edge on which a cell with the horizontal position `(x, z)` inside
    /// the chunk at `pos` lies.
    pub open spec fn beside_edge(&self, j: int, pos: [i32; 2], x: int, z: int) -> bool {
        ||| (x == 0 && self.is_at(j, pos[0] - 1, pos[1] as int))
        ||| (x == 15 && self.is_at(j, pos[0] + 1, pos[1] as int))
        ||| (z == 0 && self.is_at(j, pos[0] as int, pos[1] - 1))
        ||| (z == 15 && self.is_at(j, pos[0] as int, pos[1] + 1))
    }

    /// The chunk at `(cx, cz)` as a list: its index where `on_edge` holds
    /// and the world has a chunk there, nothing otherwise.
    pub open spec fn touched(&self, cx: int, cz: int, on_edge: bool) -> Seq<usize> {
        if on_edge && self.has_chunk(cx, cz) {
            seq![self.chunk_index(cx, cz) as usize]
        } else {
            Seq::empty()
        }
    }

    /// The chunks whose faces depend on the cell `cell` of the chunk at index
    /// `i`: that chunk, then the chunks that adjoin it along the edges on
    /// which the cell lies, towards -X, +X, -Z and +Z in this order.
    pub open spec fn rebuilt_around(&self, i: int, cell: (int, int, int)) -> Seq<usize> {
        let cx = self.chunks[i].pos[0] as int;
        let cz = self.chunks[i].pos[1] as int;
        seq![i as usize] + self.touched(cx - 1, cz, cell.0 == 0) + self.touched(
            cx + 1,
            cz,
            cell.0 == 15,
        ) + self.touched(cx, cz - 1, cell.2 == 0) + self.touched(cx, cz + 1, cell.2 == 15)
    }

    /// The number of chunk positions from `low` up to, and without, `high`.
    pub open spec fn span(low: i32, high: i32) -> int {
        if low < high {
            high - low
        } else {
            0
        }
    }

    /// Whether the chunk at index `i` of `chunks` is at the chunk position
    /// `(cx, cz)`.
    pub open spec fn placed(chunks: Seq<Chunk>, i: int, cx: int, cz: int) -> bool {
        0 <= i < chunks.len() && chunks[i].pos[0] == cx && chunks[i].pos[1] == cz
    }

    /// Whether the world holds exactly the chunks of the region from `min`
    /// up to, and without, `max`, row by row along x, each row along z.
    pub open spec fn fills(&self, min: [i32; 2], max: [i32; 2]) -> bool {
        &&& self.chunks.len() == Self::span(min[0], max[0]) * Self::span(min[1], max[1])
        &&& forall|x: int, z: int|
            min[0] <= x < max[0] && min[1] <= z < max[1] ==> #[trigger] self.is_at(
                (x - min[0]) * Self::span(min[1], max[1]) + (z - min[1]),
                x,
                z,
            )
    }
}

impl World {
    /// The world of the region of chunk positions from `min` up to, and
    /// without, `max`, on the terrain that `height_fn` describes:
    /// `height_fn` gives the height of the ground at a world position
    /// `(x, z)`. The chunks are generated row by row along x, each row along
    /// z; then every chunk is joined to the chunks that adjoin it and its
    /// mesh is built.
    pub fn generate<F: Fn(i64, i64) -> usize>(height_fn: &F, min: [i32; 2], max: [i32; 2]) -> (world: World)
        requires
            forall|wx: i64, wz: i64| height_fn.requires((wx, wz)),
        ensures
            world.wf(),
            world.fills(min, max),
            forall|i: int|
                0 <= i < world.chunks.len() ==> on_terrain(
                    (#[trigger] world.chunks[i]).pos,
                    world.chunks[i].blocks,
                    height_fn,
                ),
    {
        let ghost depth = Self::span(min[1], max[1]);
        let mut chunks: Vec<Chunk> = Vec::new();
        let mut x: i32 = min[0];
        while x < max[0]
            invariant
                min[0] <= x,
                x <= max[0] || x == min[0],
                depth == Self::span(min[1], max[1]),
                forall|wx: i64, wz: i64| height_fn.requires((wx, wz)),
                chunks.len() == Self::span(min[0], x) * depth,
                forall|i: int|
                    0 <= i < chunks.len() ==> {
                        &&& (#[trigger] chunks[i]).wf()
                        &&& chunks[i].pos[0] < x
                        &&& on_terrain(chunks[i].pos, chunks[i].blocks, height_fn)
                    },
                forall|i: int, j: int|
                    0 <= i < j < chunks.len() ==> (#[trigger] chunks[i]).pos[0] != (
                    #[trigger] chunks[j]).pos[0] || chunks[i].pos[1] != chunks[j].pos[1],
                forall|a: int, b: int|
                    min[0] <= a < x && min[1] <= b < max[1] ==> #[trigger] Self::placed(
                        chunks@,
                        (a - min[0]) * depth + (b - min[1]),
                        a,
                        b,
                    ),
            decreases max[0] - x,
        {
            let ghost row = chunks.len() as int;
            assert(row == (x - min[0]) * depth);
            let mut z: i32 = min[1];
            while z < max[1]
                invariant
                    min[0] <= x < max[0],
                    min[1] <= z,
                    z <= max[1] || z == min[1],
                    depth == Self::span(min[1], max[1]),
                    row == (x - min[0]) * depth,
                    forall|wx: i64, wz: i64| height_fn.requires((wx, wz)),
                    chunks.len() == row + Self::span(min[1], z),
                    forall|i: int|
                        0 <= i < chunks.len() ==> {
                            &&& (#[trigger] chunks[i]).wf()
                            &&& (chunks[i].pos[0] < x || (chunks[i].pos[0] == x
                                && chunks[i].pos[1] < z))
                            &&& on_terrain(chunks[i].pos, chunks[i].blocks, height_fn)
                        },
                    forall|i: int, j: int|
                        0 <= i < j < chunks.len() ==> (#[trigger] chunks[i]).pos[0] != (
                        #[trigger] chunks[j]).pos[0] || chunks[i].pos[1] != chunks[j].pos[1],
                    forall|a: int, b: int|
                        (min[0] <= a < x && min[1] <= b < max[1]) || (a == x && min[1] <= b < z)
                            ==> #[trigger] Self::placed(
                            chunks@,
                            (a - min[0]) * depth + (b - min[1]),
                            a,
                            b,
                        ),
                decreases max[1] - z,
            {
                let ghost earlier = chunks@;
                let base_chunk = Chunk::new([x, z], height_fn);
                chunks.push(base_chunk);
                proof {
                    assert(chunks[earlier.len() as int].pos[0] == x);
                    assert(chunks[earlier.len() as int].pos[1] == z);
                    assert forall|a: int, b: int|
                        (min[0] <= a < x && min[1] <= b < max[1]) || (a == x && min[1] <= b < z
                            + 1) implies #[trigger] Self::placed(
                        chunks@,
                        (a - min[0]) * depth + (b - min[1]),
                        a,
                        b,
                    ) by {
                        let k = (a - min[0]) * depth + (b - min[1]);
                        if a == x && b == z {
                            assert(k == earlier.len());
                        } else {
                            assert(Self::placed(earlier, k, a, b));
                            assert(chunks[k] == earlier[k]);
                        }
                    }
                }
                z += 1;
            }
            assert(chunks.len() == (x + 1 - min[0]) * depth) by (nonlinear_arith)
                requires
                    chunks.len() == row + depth,
                    row == (x - min[0]) * depth,
            ;
            x += 1;
        }
        let mut world = World { chunks };
        proof {
            assert(world.chunks.len() == Self::span(min[0], max[0]) * depth) by (nonlinear_arith)
                requires
                    world.chunks.len() == Self::span(min[0], x) * depth,
                    x >= max[0],
                    min[0] <= x,
                    x <= max[0] || x == min[0],
                    Self::span(min[0], x) == (if min[0] < x { x - min[0] } else { 0 }),
                    Self::span(min[0], max[0]) == (if min[0] < max[0] { max[0] - min[0] } else { 0 }),
            ;
        }
        let ghost generated = world;
        let mut i: usize = 0;
        while i < world.chunks.len()
            invariant
                i <= world.chunks.len(),
                world.distinct(),
                world.grids_wf(),
                world.same_materials_as(&generated),
                forall|j: int| 0 <= j < i ==> world.settled(j),
            decreases world.chunks.len() - i,
        {
            let ghost before = world;
            world.update_chunk_mesh(i);
            proof {
                assert forall|j: int| 0 <= j < world.chunks.len() implies {
                    &&& (#[trigger] world.chunks[j]).pos == generated.chunks[j].pos
                    &&& same_materials(world.chunks[j].blocks, generated.chunks[j].blocks)
                } by {
                    assert(world.chunks[j].pos == before.chunks[j].pos);
                    assert(same_materials(world.chunks[j].blocks, before.chunks[j].blocks));
                    assert(same_materials(before.chunks[j].blocks, generated.chunks[j].blocks));
                    assert forall|a: int, b: int, c: int| in_chunk(a, b, c) implies (
                    #[trigger] world.chunks[j].blocks[a][b][c]).mat
                        == generated.chunks[j].blocks[a][b][c].mat by {
                        assert(world.chunks[j].blocks[a][b][c].mat
                            == before.chunks[j].blocks[a][b][c].mat);
                        assert(before.chunks[j].blocks[a][b][c].mat
                            == generated.chunks[j].blocks[a][b][c].mat);
                    }
                }
            }
            i += 1;
        }
        proof {
            assert forall|j: int| 0 <= j < world.chunks.len() implies (
            #[trigger] world.chunks[j]).wf() && world.stitched(j) by {
                assert(world.settled(j));
            }
            assert forall|j: int| 0 <= j < world.chunks.len() implies on_terrain(
                (#[trigger] world.chunks[j]).pos,
                world.chunks[j].blocks,
                height_fn,
            ) by {
                assert(world.chunks[j].pos == generated.chunks[j].pos);
                assert(on_terrain(
                    generated.chunks[j].pos,
                    generated.chunks[j].blocks,
                    height_fn,
                ));
                lemma_on_terrain_by_material(
                    generated.chunks[j].pos,
                    generated.chunks[j].blocks,
                    world.chunks[j].blocks,
                    height_fn,
                );
            }
            assert forall|a: int, b: int|
                min[0] <= a < max[0] && min[1] <= b < max[1] implies #[trigger] world.is_at(
                (a - min[0]) * depth + (b - min[1]),
                a,
                b,
            ) by {
                let k = (a - min[0]) * depth + (b - min[1]);
                assert(Self::placed(generated.chunks@, k, a, b));
                assert(world.chunks[k].pos == generated.chunks[k].pos);
            }
        }
        world
    }

    /// The world of the ten by ten chunks around the origin on the terrain
    /// that `height_fn` describes.
    pub fn new<F: Fn(i64, i64) -> usize>(height_fn: &F) -> (world: World)
        requires
            forall|wx: i64, wz: i64| height_fn.requires((wx, wz)),
        ensures
            world.wf(),
            world.fills([(-5i32) as i32, (-5i32) as i32], [5i32, 5i32]),
            world.chunks.len() == 100,
            forall|i: int|
                0 <= i < world.chunks.len() ==> on_terrain(
                    (#[trigger] world.chunks[i]).pos,
                    world.chunks[i].blocks,
                    height_fn,
                ),
    {
        let min: [i32; 2] = [-WORLD_SIZE, -WORLD_SIZE];
        let max: [i32; 2] = [WORLD_SIZE, WORLD_SIZE];
        let world = Self::generate(height_fn, min, max);
        proof {
            let low: [i32; 2] = [(-5i32) as i32, (-5i32) as i32];
            let high: [i32; 2] = [5i32, 5i32];
            assert(min =~= low);
            assert(max =~= high);
            let across = Self::span(min[0], max[0]);
            let along = Self::span(min[1], max[1]);
            assert(across == 10 && along == 10);
            assert(across * along == 100) by (nonlinear_arith)
                requires
                    across == 10,
                    along == 10,
            ;
        }
        world
    }

    /// The index of the first chunk at the chunk position `pos`.
    pub fn find_chunk(&self, pos: [i32; 2]) -> (found: Option<usize>)
        ensures
            self.is_first_at(found, pos[0] as int, pos[1] as int),
    {
        let mut i: usize = 0;
        while i < self.chunks.len()
            invariant
                i <= self.chunks.len(),
                forall|j: int| 0 <= j < i ==> !self.is_at(j, pos[0] as int, pos[1] as int),
            decreases self.chunks.len() - i,
        {
            if self.chunks[i].pos[0] == pos[0] && self.chunks[i].pos[1] == pos[1] {
                return Some(i);
            }
            i += 1;
        }
        None
    }

    /// The materials of one side of `chunk`, indexed by the horizontal
    /// coordinate along the side, then by height. Side 0 is the plane
    /// `z = 0`, side 1 the plane `z = 15`, side 2 the plane `x = 0`, side 3
    /// the plane `x = 15`. Any other number gives a plane of air.
    pub fn get_boundary_blocks(chunk: &Chunk, face: usize) -> (plane: Vec<Vec<BlockType>>)
        requires
            grid_shaped(chunk.blocks),
        ensures
            is_boundary(plane, chunk.blocks, face as int),
    {
        let mut plane: Vec<Vec<BlockType>> = Vec::new();
        let mut a: usize = 0;
        while a < 16
            invariant
                a <= 16,
                grid_shaped(chunk.blocks),
                plane.len() == a,
                forall|i: int| 0 <= i < a ==> (#[trigger] plane[i]).len() == CHUNK_Y_SIZE,
                forall|i: int, j: int|
                    0 <= i < a && 0 <= j < CHUNK_Y_SIZE ==> #[trigger] plane[i][j]
                        == boundary_material(chunk.blocks, face as int, i, j),
            decreases 16 - a,
        {
            let mut column: Vec<BlockType> = Vec::new();
            let mut y: usize = 0;
            while y < CHUNK_Y_SIZE
                invariant
                    a < 16,
                    y <= CHUNK_Y_SIZE,
                    grid_shaped(chunk.blocks),
                    column.len() == y,
                    forall|j: int|
                        0 <= j < y ==> #[trigger] column[j] == boundary_material(
                            chunk.blocks,
                            face as int,
                            a as int,
                            j,
                        ),
                decreases CHUNK_Y_SIZE - y,
            {
                let mat: BlockType = if face == 0 {
                    chunk.blocks[a][y][0].mat
                } else if face == 1 {
                    chunk.blocks[a][y][CHUNK_Z_SIZE - 1].mat
                } else if face == 2 {
                    chunk.blocks[0][y][a].mat
                } else if face == 3 {
                    chunk.blocks[CHUNK_X_SIZE - 1][y][a].mat
                } else {
                    AIR
                };
                column.push(mat);
                y += 1;
            }
            plane.push(column);
            a += 1;
        }
        plane
    }

    /// Recomputes the faces of every solid block of `chunk`. A face on an
    /// edge of the chunk is hidden where the boundary of the adjoining chunk
    /// holds a solid block: `left_blocks` lies beyond `x = 0`, `right_blocks`
    /// beyond `x = 15`, `back_blocks` beyond `z = 0` and `front_blocks`
    /// beyond `z = 15`. A missing boundary is open, and so are the top and
    /// the bottom of the chunk. Air blocks and the mesh are left as they are.
    pub fn update_chunk_faces_with_neighbor_blocks(
        chunk: &mut Chunk,
        left_blocks: Boundary,
        right_blocks: Boundary,
        back_blocks: Boundary,
        front_blocks: Boundary,
    )
        requires
            grid_shaped(old(chunk).blocks),
        ensures
            final(chunk).pos == old(chunk).pos,
            final(chunk).mesh == old(chunk).mesh,
            grid_shaped(final(chunk).blocks),
            same_materials(final(chunk).blocks, old(chunk).blocks),
            grid_wf(old(chunk).blocks) ==> grid_wf(final(chunk).blocks),
            forall|x: int, y: int, z: int|
                in_chunk(x, y, z) ==> #[trigger] final(chunk).blocks[x][y][z] == recomputed(
                    old(chunk).blocks,
                    left_blocks,
                    right_blocks,
                    back_blocks,
                    front_blocks,
                    false,
                    x,
                    y,
                    z,
                ),
    {
        cull_faces(
            &mut chunk.blocks,
            &left_blocks,
            &right_blocks,
            &back_blocks,
            &front_blocks,
            false,
        );
    }

    /// What the chunk at `pos` moved by `(dx, dz)` shows on its side `face`,
    /// or `None` where the world has no chunk there.
    fn side_of_neighbour(&self, pos: [i32; 2], dx: i32, dz: i32, face: usize) -> (plane: Boundary)
        requires
            -1 <= dx <= 1,
            -1 <= dz <= 1,
            self.distinct(),
            forall|j: int| 0 <= j < self.chunks.len() ==> grid_shaped((#[trigger] self.chunks[j]).blocks),
        ensures
            self.is_side_of(plane, pos[0] + dx, pos[1] + dz, face as int),
    {
        let cx = pos[0].checked_add(dx);
        let cz = pos[1].checked_add(dz);
        match (cx, cz) {
            (Some(cx), Some(cz)) => {
                match self.find_chunk([cx, cz]) {
                    Some(idx) => {
                        proof {
                            self.lemma_index_unique(idx as int, cx as int, cz as int);
                        }
                        Some(Self::get_boundary_blocks(&self.chunks[idx], face))
                    },
                    None => None,
                }
            },
            _ => {
                assert(!self.has_chunk(pos[0] + dx, pos[1] + dz));
                None
            },
        }
    }

    /// Recomputes the faces of the chunk at index `chunk_index` against the
    /// chunks that adjoin it, and rebuilds its mesh. Materials, and all other
    /// chunks, stay as they are. In a world that is up to date nothing
    /// changes.
    pub fn update_chunk_mesh(&mut self, chunk_index: usize)
        requires
            chunk_index < old(self).chunks.len(),
            old(self).distinct(),
            old(self).grids_wf(),
        ensures
            final(self).same_materials_as(old(self)),
            forall|j: int|
                0 <= j < old(self).chunks.len() && j != chunk_index
                    ==> #[trigger] final(self).chunks[j] == old(self).chunks[j],
            final(self).distinct(),
            final(self).grids_wf(),
            final(self).settled(chunk_index as int),
            forall|j: int|
                0 <= j < old(self).chunks.len() && old(self).settled(j) ==> final(self).settled(j),
            old(self).wf() ==> final(self).wf() && final(self)@ == old(self)@,
    {
        let pos = self.chunks[chunk_index].pos;
        let left_blocks = self.side_of_neighbour(pos, -1, 0, 3);
        let right_blocks = self.side_of_neighbour(pos, 1, 0, 2);
        let back_blocks = self.side_of_neighbour(pos, 0, -1, 1);
        let front_blocks = self.side_of_neighbour(pos, 0, 1, 0);
        let ghost left = left_blocks;
        let ghost right = right_blocks;
        let ghost back = back_blocks;
        let ghost front = front_blocks;
        Self::update_chunk_faces_with_neighbor_blocks(
            &mut self.chunks[chunk_index],
            left_blocks,
            right_blocks,
            back_blocks,
            front_blocks,
        );
        self.chunks[chunk_index].regenerate_mesh();
        proof {
            let before = old(self);
            let i = chunk_index as int;
            assert(self.same_materials_as(before));
            assert forall|x: int, y: int, z: int| in_chunk(x, y, z) implies #[trigger] self.chunks[i].blocks[x][y][z]
                == self.stitched_block(i, x, y, z) by {
                let mat = before.chunks[i].blocks[x][y][z].mat;
                assert(self.chunks[i].blocks[x][y][z].mat == mat);
                assert(before.chunks[i].blocks[x][y][z].wf());
                assert forall|slot: int| 0 <= slot < 6 implies neighbour_solid(
                    before.chunks[i].blocks,
                    left,
                    right,
                    back,
                    front,
                    x,
                    y,
                    z,
                    slot,
                ) == self.side_hidden(i, x, y, z, slot) by {
                    before.lemma_boundaries_show_world(i, left, right, back, front, x, y, z, slot);
                    let n = FaceDirections::of_slot(slot).normal();
                    let wx = world_coord(before.chunks[i].pos[0], x) + n.0;
                    let wz = world_coord(before.chunks[i].pos[1], z) + n.2;
                    before.lemma_same_materials(
                        self,
                        wx / 16,
                        wz / 16,
                        wx % 16,
                        y + n.1,
                        wz % 16,
                    );
                }
                if mat == AIR {
                    before.chunks[i].blocks[x][y][z].lemma_wf_air_is_bare(
                        self.hidden_sides(i, x, y, z),
                    );
                } else {
                    assert(crate::culling::hidden_sides(
                        before.chunks[i].blocks,
                        left,
                        right,
                        back,
                        front,
                        x,
                        y,
                        z,
                    ) =~= self.hidden_sides(i, x, y, z));
                }
            }
            assert forall|j: int|
                0 <= j < before.chunks.len() && before.settled(j) implies self.settled(j) by {
                if j != i {
                    before.lemma_settled_transfer(self, j);
                }
            }
            if before.wf() {
                assert forall|j: int| 0 <= j < self.chunks.len() implies (
                #[trigger] self.chunks[j]).wf() && self.stitched(j) by {
                    assert(before.chunks[j].wf() && before.stitched(j));
                    assert(self.settled(j));
                }
                self.lemma_wf_determined(before);
            }
        }
    }

    /// The index of the first chunk that covers the world cell `pos` and,
    /// where `solid_only` is set, holds a block other than air there.
    fn find_holder(&self, pos: [i32; 3], solid_only: bool) -> (found: Option<usize>)
        requires
            self.grids_wf(),
        ensures
            match found {
                Some(i) => self.holds(i as int, pos) && (solid_only
                    ==> self.chunks[i as int].spec_contains_block(pos)),
                None => forall|j: int|
                    self.holds(j, pos) ==> solid_only && !(
                    #[trigger] self.chunks[j]).spec_contains_block(pos),
            },
    {
        let mut i: usize = 0;
        while i < self.chunks.len()
            invariant
                i <= self.chunks.len(),
                self.grids_wf(),
                forall|j: int|
                    0 <= j < i && self.holds(j, pos) ==> solid_only && !(
                    #[trigger] self.chunks[j]).spec_contains_block(pos),
            decreases self.chunks.len() - i,
        {
            let hit: bool = if solid_only {
                self.chunks[i].contains_block(pos)
            } else {
                self.chunks[i].contains_position(pos)
            };
            if hit {
                return Some(i);
            }
            i += 1;
        }
        None
    }

    /// Where `on_edge` holds and the world has a chunk at `pos` moved by
    /// `(dx, dz)`, recomputes the faces of that chunk, rebuilds its mesh and
    /// appends its index to `rebuilt`.
    fn restitch_neighbour(
        &mut self,
        pos: [i32; 2],
        dx: i32,
        dz: i32,
        on_edge: bool,
        rebuilt: &mut Vec<usize>,
    )
        requires
            -1 <= dx <= 1,
            -1 <= dz <= 1,
            old(self).distinct(),
            old(self).grids_wf(),
        ensures
            final(self).same_materials_as(old(self)),
            final(self).distinct(),
            final(self).grids_wf(),
            forall|j: int|
                0 <= j < old(self).chunks.len() && old(self).settled(j) ==> final(self).settled(j),
            forall|j: int|
                on_edge && old(self).is_at(j, pos[0] + dx, pos[1] + dz) ==> final(self).settled(j),
            final(rebuilt)@ == old(rebuilt)@ + old(self).touched(
                pos[0] + dx,
                pos[1] + dz,
                on_edge,
            ),
    {
        if !on_edge {
            assert(rebuilt@ + Seq::<usize>::empty() =~= rebuilt@);
            return ;
        }
        let cx = pos[0].checked_add(dx);
        let cz = pos[1].checked_add(dz);
        let found: Option<usize> = match (cx, cz) {
            (Some(cx), Some(cz)) => self.find_chunk([cx, cz]),
            _ => None,
        };
        match found {
            Some(idx) => {
                proof {
                    let tx = pos[0] + dx;
                    let tz = pos[1] + dz;
                    self.lemma_index_unique(idx as int, tx, tz);
                    assert forall|j: int| #[trigger] self.is_at(j, tx, tz) implies j == idx by {
                        self.lemma_index_unique(j, tx, tz);
                    }
                }
                self.update_chunk_mesh(idx);
                rebuilt.push(idx);
                assert(rebuilt@ =~= old(rebuilt)@ + seq![idx]);
            },
            None => {
                assert(!self.has_chunk(pos[0] + dx, pos[1] + dz));
                assert(rebuilt@ + Seq::<usize>::empty() =~= rebuilt@);
            },
        }
    }

    /// Brings the faces and the mesh of the chunks up to date that adjoin the
    /// chunk at `pos` along an edge on which a cell with the horizontal
    /// position `(x, z)` inside that chunk lies: towards -X, +X, -Z and +Z
    /// in this order. Their indices are appended to `rebuilt`.
    fn restitch_edges(&mut self, pos: [i32; 2], x: i64, z: i64, rebuilt: &mut Vec<usize>)
        requires
            old(self).distinct(),
            old(self).grids_wf(),
        ensures
            final(self).same_materials_as(old(self)),
            final(self).distinct(),
            final(self).grids_wf(),
            forall|j: int|
                0 <= j < old(self).chunks.len() && old(self).settled(j) ==> final(self).settled(j),
            forall|j: int|
                0 <= j < old(self).chunks.len() && old(self).beside_edge(j, pos, x as int, z as int)
                    ==> final(self).settled(j),
            final(rebuilt)@ == old(rebuilt)@ + old(self).touched(pos[0] - 1, pos[1] as int, x == 0)
                + old(self).touched(pos[0] + 1, pos[1] as int, x == 15) + old(self).touched(
                pos[0] as int,
                pos[1] - 1,
                z == 0,
            ) + old(self).touched(pos[0] as int, pos[1] + 1, z == 15),
    {
        let ghost w0 = *self;
        let ghost r0 = rebuilt@;
        self.restitch_neighbour(pos, -1, 0, x == 0, rebuilt);
        let ghost w1 = *self;
        let ghost r1 = rebuilt@;
        self.restitch_neighbour(pos, 1, 0, x == 15, rebuilt);
        let ghost w2 = *self;
        let ghost r2 = rebuilt@;
        proof {
            w0.lemma_same_materials_chain(&w1, &w2);
            w0.lemma_same_positions(&w1, pos[0] + 1, pos[1] as int, x == 15);
        }
        self.restitch_neighbour(pos, 0, -1, z == 0, rebuilt);
        let ghost w3 = *self;
        let ghost r3 = rebuilt@;
        proof {
            w0.lemma_same_materials_chain(&w2, &w3);
            w0.lemma_same_positions(&w2, pos[0] as int, pos[1] - 1, z == 0);
        }
        self.restitch_neighbour(pos, 0, 1, z == 15, rebuilt);
        proof {
            w0.lemma_same_materials_chain(&w3, self);
            w0.lemma_same_positions(&w3, pos[0] as int, pos[1] + 1, z == 15);
            assert forall|j: int|
                0 <= j < w0.chunks.len() && w0.beside_edge(
                    j,
                    pos,
                    x as int,
                    z as int,
                ) implies self.settled(j) by {
                assert(w0.chunks[j].pos == w1.chunks[j].pos);
                assert(w0.chunks[j].pos == w2.chunks[j].pos);
                assert(w0.chunks[j].pos == w3.chunks[j].pos);
                if x == 0 && w0.is_at(j, pos[0] - 1, pos[1] as int) {
                    assert(w1.settled(j));
                } else if x == 15 && w0.is_at(j, pos[0] + 1, pos[1] as int) {
                    assert(w1.is_at(j, pos[0] + 1, pos[1] + 0));
                    assert(w2.settled(j));
                } else if z == 0 && w0.is_at(j, pos[0] as int, pos[1] - 1) {
                    assert(w2.is_at(j, pos[0] + 0, pos[1] - 1));
                    assert(w3.settled(j));
                } else {
                    assert(w3.is_at(j, pos[0] + 0, pos[1] + 1));
                }
            }
        }
    }

    /// Changes the world cell `pos`, which the chunk at index `chunk_index`
    /// covers, then brings the faces and the mesh of that chunk, and of the
    /// chunks that adjoin it along an edge on which the cell lies, up to
    /// date. With `place` set the cell receives a block if it is empty;
    /// otherwise the cell is emptied.
    fn apply_edit(&mut self, chunk_index: usize, pos: [i32; 3], place: bool) -> (rebuilt: Vec<usize>)
        requires
            old(self).wf(),
            old(self).holds(chunk_index as int, pos),
        ensures
            final(self).wf(),
            final(self).edited_from(
                old(self),
                chunk_index as int,
                old(self).chunks[chunk_index as int].local_of(pos),
                old(self).material_after(chunk_index as int, pos, place),
            ),
            rebuilt@ == old(self).rebuilt_around(
                chunk_index as int,
                old(self).chunks[chunk_index as int].local_of(pos),
            ),
    {
        let ghost before = *self;
        let ghost i = chunk_index as int;
        let ghost cell = self.chunks[i].local_of(pos);
        let ghost mat = self.material_after(i, pos, place);
        let chunk_pos = self.chunks[chunk_index].pos;
        let local_pos = self.chunks[chunk_index].get_local_pos(pos);
        assert(before.chunks[i].wf());
        if place {
            self.chunks[chunk_index].place_block(pos);
        } else {
            self.chunks[chunk_index].break_block(pos);
        }
        let ghost edited = *self;
        proof {
            assert(edited.chunks.len() == before.chunks.len());
            assert forall|j: int| 0 <= j < edited.chunks.len() && j != i implies (
            #[trigger] edited.chunks[j]) == before.chunks[j] by {}
            assert(Chunk::edited(before.chunks[i].blocks, edited.chunks[i].blocks, cell, mat));
            edited.lemma_after_chunk_edit(&before, i, cell, mat);
        }
        self.update_chunk_mesh(chunk_index);
        let ghost stitched = *self;
        let mut rebuilt: Vec<usize> = Vec::new();
        rebuilt.push(chunk_index);
        assert(rebuilt@ =~= seq![chunk_index]);
        self.restitch_edges(chunk_pos, local_pos[0], local_pos[2], &mut rebuilt);
        proof {
            let cx = chunk_pos[0] as int;
            let cz = chunk_pos[1] as int;
            before.lemma_same_positions(&edited, cx - 1, cz, cell.0 == 0);
            edited.lemma_same_positions(&stitched, cx - 1, cz, cell.0 == 0);
            before.lemma_same_positions(&edited, cx + 1, cz, cell.0 == 15);
            edited.lemma_same_positions(&stitched, cx + 1, cz, cell.0 == 15);
            before.lemma_same_positions(&edited, cx, cz - 1, cell.2 == 0);
            edited.lemma_same_positions(&stitched, cx, cz - 1, cell.2 == 0);
            before.lemma_same_positions(&edited, cx, cz + 1, cell.2 == 15);
            edited.lemma_same_positions(&stitched, cx, cz + 1, cell.2 == 15);
            assert(rebuilt@ =~= before.rebuilt_around(i, cell));
            edited.lemma_same_materials_chain(&stitched, self);
            self.lemma_edit_then_same(&before, &edited, i, cell, mat);
            assert forall|j: int| 0 <= j < self.chunks.len() implies (
            #[trigger] self.chunks[j]).wf() && self.stitched(j) by {
                assert(stitched.settled(i));
                assert(before.chunks[j].pos == edited.chunks[j].pos);
                assert(edited.chunks[j].pos == stitched.chunks[j].pos);
                if j == i {
                } else if before.edge_neighbour(j, i, cell) {
                    assert(stitched.beside_edge(j, chunk_pos, cell.0, cell.2));
                } else {
                    assert(edited.settled(j));
                    assert(stitched.settled(j));
                }
                assert(self.settled(j));
            }
        }
        rebuilt
    }

    /// Removes the block in the world cell `pos`. The faces and the mesh of
    /// the chunk that holds the cell are brought up to date, and so are those
    /// of every chunk that adjoins it along an edge on which the cell lies.
    /// Where the cell holds no block, or no chunk covers it, nothing changes.
    ///
    /// Returns the indices of the chunks whose mesh was rebuilt, in the order
    /// in which they were rebuilt.
    pub fn break_block(&mut self, pos: [i32; 3]) -> (rebuilt: Vec<usize>)
        requires
            old(self).wf(),
        ensures
            final(self).wf(),
            old(self).material_of(pos) == AIR ==> final(self)@ == old(self)@ && rebuilt@
                == Seq::<usize>::empty(),
            old(self).material_of(pos) != AIR ==> {
                let i = old(self).holder(pos);
                let cell = old(self).chunks[i].local_of(pos);
                &&& final(self).edited_from(old(self), i, cell, AIR)
                &&& rebuilt@ == old(self).rebuilt_around(i, cell)
            },
    {
        proof {
            assert forall|j: int| 0 <= j < self.chunks.len() implies grid_wf(
                (#[trigger] self.chunks[j]).blocks,
            ) by {
                assert(self.chunks[j].wf());
            }
        }
        match self.find_holder(pos, true) {
            Some(chunk_index) => {
                proof {
                    self.lemma_holder_unique(chunk_index as int, pos);
                }
                self.apply_edit(chunk_index, pos, false)
            },
            None => {
                proof {
                    if self.covers(pos) {
                        assert(self.holds(self.holder(pos), pos));
                    }
                }
                Vec::new()
            },
        }
    }

    /// Puts a block of the material `PLACED` into the world cell `pos` if a
    /// chunk covers the cell and the cell is empty. The faces and the mesh of
    /// the chunk that covers the cell are brought up to date, and so are
    /// those of every chunk that adjoins it along an edge on which the cell
    /// lies. On an occupied cell the meshes are rebuilt and nothing changes;
    /// where no chunk covers the cell nothing happens.
    ///
    /// Returns the indices of the chunks whose mesh was rebuilt, in the order
    /// in which they were rebuilt.
    pub fn place_block(&mut self, pos: [i32; 3]) -> (rebuilt: Vec<usize>)
        requires
            old(self).wf(),
        ensures
            final(self).wf(),
            !old(self).covers(pos) ==> final(self)@ == old(self)@ && rebuilt@ == Seq::<
                usize,
            >::empty(),
            old(self).covers(pos) ==> {
                let i = old(self).holder(pos);
                let cell = old(self).chunks[i].local_of(pos);
                &&& rebuilt@ == old(self).rebuilt_around(i, cell)
                &&& old(self).material_of(pos) != AIR ==> final(self)@ == old(self)@
                &&& old(self).material_of(pos) == AIR ==> final(self).edited_from(
                    old(self),
                    i,
                    cell,
                    PLACED,
                )
            },
    {
        proof {
            assert forall|j: int| 0 <= j < self.chunks.len() implies grid_wf(
                (#[trigger] self.chunks[j]).blocks,
            ) by {
                assert(self.chunks[j].wf());
            }
        }
        match self.find_holder(pos, false) {
            Some(chunk_index) => {
                proof {
                    self.lemma_holder_unique(chunk_index as int, pos);
                }
                let rebuilt = self.apply_edit(chunk_index, pos, true);
                proof {
                    if old(self).material_of(pos) != AIR {
                        assert(self.same_materials_as(old(self)));
                        self.lemma_wf_determined(old(self));
                    }
                }
                rebuilt
            },
            None => {
                proof {
                    if self.covers(pos) {
                        assert(self.holds(self.holder(pos), pos));
                    }
                }
                Vec::new()
            },
        }
    }
}

} // verus!
