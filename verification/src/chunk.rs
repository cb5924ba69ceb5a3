use vstd::prelude::*;
use vstd::std_specs::cmp::PartialEqSpecImpl;
use crate::block::{Block, BlockType, BlockVertex, FaceDirections, AIR};
use crate::culling::{cull_within, self_culled};
use crate::grid::{grid_shaped, grid_view, grid_wf, in_chunk, same_materials, world_coord};
use crate::mesh::{
    face_count, lemma_face_count_bounds, lemma_mesh_size, lemma_quad_indices_step,
    lemma_slot_index, mesh_of, mesh_vertices, push_face, quad_indices, slot_face, slot_index,
    slot_total, MeshView,
};
use crate::terrain::{
    is_terrain, on_terrain, sampled, terrain_material, terrain_materials, DIRT, GRASS, STONE,
    STONE_HEIGHT,
};

verus! {

/// Width of a chunk along X, in blocks.
pub const CHUNK_X_SIZE: usize = 16;

/// Height of a chunk, and of the world, in blocks.
pub const CHUNK_Y_SIZE: usize = 256;

/// Depth of a chunk along Z, in blocks.
pub const CHUNK_Z_SIZE: usize = 16;

/// The material that `place_block` puts into an empty cell.
pub const PLACED: BlockType = 8;

/// The triangle mesh of a chunk: for every visible face four vertices, and
/// six indices that draw the face as two triangles.
#[derive(Clone, Debug, PartialEq, Eq)]
pub struct Mesh {
    pub vertices: Vec<BlockVertex>,
    pub indices: Vec<u32>,
    pub num_elements: u32,
}

impl View for Mesh {
    type V = MeshView;

    open spec fn view(&self) -> MeshView {
        MeshView {
            vertices: self.vertices@,
            indices: self.indices@,
            num_elements: self.num_elements,
        }
    }
}

impl Mesh {
    /// Builds the mesh of the grid `blocks` of the chunk at `pos`. The faces
    /// are visited cell by cell, by x, then y, then z, and on each cell in
    /// slot order. Each face adds its four vertices, moved to the cell's
    /// place in the world, and six indices.
    pub fn new(pos: [i32; 2], blocks: &Vec<Vec<Vec<Block>>>) -> (mesh: Mesh)
        requires
            grid_wf(*blocks),
        ensures
            mesh@ == mesh_of(pos, *blocks),
            mesh.vertices.len() == 4 * face_count(*blocks, slot_total()),
            mesh.indices.len() == 6 * face_count(*blocks, slot_total()),
            mesh.num_elements == mesh.indices.len(),
    {
        let mut vertices: Vec<BlockVertex> = Vec::new();
        let mut indices: Vec<u32> = Vec::new();
        let mut num_elements: u32 = 0;
        let mut x: usize = 0;
        while x < CHUNK_X_SIZE
            invariant
                x <= CHUNK_X_SIZE,
                grid_wf(*blocks),
                vertices@ == mesh_vertices(pos, *blocks, slot_index(x as int, 0, 0, 0)),
                indices@ == quad_indices(face_count(*blocks, slot_index(x as int, 0, 0, 0))),
                num_elements == 4 * face_count(*blocks, slot_index(x as int, 0, 0, 0)),
            decreases CHUNK_X_SIZE - x,
        {
            let mut y: usize = 0;
            while y < CHUNK_Y_SIZE
                invariant
                    x < CHUNK_X_SIZE,
                    y <= CHUNK_Y_SIZE,
                    grid_wf(*blocks),
                    vertices@ == mesh_vertices(pos, *blocks, slot_index(x as int, y as int, 0, 0)),
                    indices@ == quad_indices(
                        face_count(*blocks, slot_index(x as int, y as int, 0, 0)),
                    ),
                    num_elements == 4 * face_count(*blocks, slot_index(x as int, y as int, 0, 0)),
                decreases CHUNK_Y_SIZE - y,
            {
                let mut z: usize = 0;
                while z < CHUNK_Z_SIZE
                    invariant
                        x < CHUNK_X_SIZE,
                        y < CHUNK_Y_SIZE,
                        z <= CHUNK_Z_SIZE,
                        grid_wf(*blocks),
                        vertices@ == mesh_vertices(
                            pos,
                            *blocks,
                            slot_index(x as int, y as int, z as int, 0),
                        ),
                        indices@ == quad_indices(
                            face_count(*blocks, slot_index(x as int, y as int, z as int, 0)),
                        ),
                        num_elements == 4 * face_count(
                            *blocks,
                            slot_index(x as int, y as int, z as int, 0),
                        ),
                    decreases CHUNK_Z_SIZE - z,
                {
                    let dx: i64 = x as i64 + 16 * (pos[0] as i64);
                    let dy: i64 = y as i64;
                    let dz: i64 = z as i64 + 16 * (pos[1] as i64);
                    let mut side: usize = 0;
                    while side < 6
                        invariant
                            x < CHUNK_X_SIZE,
                            y < CHUNK_Y_SIZE,
                            z < CHUNK_Z_SIZE,
                            side <= 6,
                            grid_wf(*blocks),
                            dx == world_coord(pos[0], x as int),
                            dy == y,
                            dz == world_coord(pos[1], z as int),
                            vertices@ == mesh_vertices(
                                pos,
                                *blocks,
                                slot_index(x as int, y as int, z as int, side as int),
                            ),
                            indices@ == quad_indices(
                                face_count(
                                    *blocks,
                                    slot_index(x as int, y as int, z as int, side as int),
                                ),
                            ),
                            num_elements == 4 * face_count(
                                *blocks,
                                slot_index(x as int, y as int, z as int, side as int),
                            ),
                        decreases 6 - side,
                    {
                        let ghost s = slot_index(x as int, y as int, z as int, side as int);
                        proof {
                            lemma_slot_index(x as int, y as int, z as int, side as int);
                            lemma_face_count_bounds(*blocks, s);
                            assert(blocks[x as int][y as int][z as int].wf());
                            assert(slot_face(*blocks, s) == blocks[x as int][y as int][z
                                as int].faces[side as int]);
                        }
                        match blocks[x][y][z].faces[side] {
                            Some(face) => {
                                proof {
                                    FaceDirections::of_slot(side as int).lemma_face_geometry();
                                    lemma_quad_indices_step(face_count(*blocks, s));
                                    assert forall|k: int, a: int| 0 <= k < 4 && 0 <= a < 3 implies 0
                                        <= (#[trigger] face.verts[k].position[a]) <= 1 by {
                                        assert(face.verts[k].position == FaceDirections::of_slot(
                                            side as int,
                                        ).corner(k));
                                    }
                                }
                                push_face(
                                    &mut vertices,
                                    &mut indices,
                                    &face,
                                    dx,
                                    dy,
                                    dz,
                                    num_elements,
                                );
                                num_elements += 4;
                            },
                            None => {},
                        }
                        side += 1;
                        assert(slot_index(x as int, y as int, z as int, side as int) == s + 1);
                    }
                    z += 1;
                    assert(slot_index(x as int, y as int, z as int, 0) == slot_index(
                        x as int,
                        y as int,
                        z - 1,
                        6,
                    ));
                }
                y += 1;
                assert(slot_index(x as int, y as int, 0, 0) == slot_index(
                    x as int,
                    y - 1,
                    16,
                    0,
                ));
            }
            x += 1;
            assert(slot_index(x as int, 0, 0, 0) == slot_index(x - 1, 256, 0, 0));
        }
        proof {
            assert(slot_index(16, 0, 0, 0) == slot_total());
            lemma_mesh_size(pos, *blocks, slot_total());
            lemma_face_count_bounds(*blocks, slot_total());
        }
        Mesh { vertices, num_elements: indices.len() as u32, indices }
    }
}

/// What a chunk holds: its position, its blocks and its mesh.
pub struct ChunkView {
    pub pos: [i32; 2],
    pub blocks: Seq<Seq<Seq<Block>>>,
    pub mesh: MeshView,
}

/// A column of the world, `CHUNK_X_SIZE` by `CHUNK_Z_SIZE` blocks wide and
/// `CHUNK_Y_SIZE` blocks high, with the mesh of its visible faces.
///
/// `pos` counts chunks: the chunk at `pos` covers the world coordinates
/// `16 * pos[0] ..  16 * pos[0] + 16` along X and `16 * pos[1] ..
/// 16 * pos[1] + 16` along Z. `blocks` is indexed by x, then y, then z.
#[derive(Clone, Debug)]
pub struct Chunk {
    pub pos: [i32; 2],
    pub blocks: Vec<Vec<Vec<Block>>>,
    pub mesh: Mesh,
}

impl View for Chunk {
    type V = ChunkView;

    open spec fn view(&self) -> ChunkView {
        ChunkView { pos: self.pos, blocks: grid_view(self.blocks), mesh: self.mesh@ }
    }
}

impl Chunk {
    /// A chunk is well formed when its grid has the dimensions of a chunk,
    /// its blocks are well formed and its mesh is the mesh of its blocks.
    pub open spec fn wf(&self) -> bool {
        &&& grid_wf(self.blocks)
        &&& self.mesh@ == mesh_of(self.pos, self.blocks)
    }

    /// The position of the world cell `pos` relative to this chunk's origin.
    pub open spec fn local_of(&self, pos: [i32; 3]) -> (int, int, int) {
        (pos[0] - 16 * self.pos[0], pos[1] as int, pos[2] - 16 * self.pos[1])
    }

    /// Whether the world cell `pos` lies inside this chunk.
    pub open spec fn spec_contains_position(&self, pos: [i32; 3]) -> bool {
        let l = self.local_of(pos);
        in_chunk(l.0, l.1, l.2)
    }

    /// Whether the world cell `pos` lies inside this chunk and holds a block
    /// other than air.
    pub open spec fn spec_contains_block(&self, pos: [i32; 3]) -> bool {
        let l = self.local_of(pos);
        in_chunk(l.0, l.1, l.2) && self.blocks[l.0][l.1][l.2].mat != AIR
    }

    /// Whether the grid `after` holds the materials of `before` with the
    /// cell `cell` set to `mat`.
    pub open spec fn edited(
        before: Vec<Vec<Vec<Block>>>,
        after: Vec<Vec<Vec<Block>>>,
        cell: (int, int, int),
        mat: BlockType,
    ) -> bool {
        forall|x: int, y: int, z: int|
            in_chunk(x, y, z) ==> (#[trigger] after[x][y][z]).mat == (if (x, y, z) == cell {
                mat
            } else {
                before[x][y][z].mat
            })
    }

    /// The chunk at `pos` on the terrain that `height_fn` describes, with
    /// its mesh. The four edges of the chunk are open until a world joins it
    /// to its neighbours.
    pub fn new<F: Fn(i64, i64) -> usize>(pos: [i32; 2], height_fn: &F) -> (chunk: Chunk)
        requires
            forall|wx: i64, wz: i64| height_fn.requires((wx, wz)),
        ensures
            chunk.pos == pos,
            chunk.wf(),
            self_culled(chunk.blocks),
            on_terrain(pos, chunk.blocks, height_fn),
    {
        let blocks = Self::generate_blocks(pos, height_fn);
        let mesh = Mesh::new(pos, &blocks);
        Self { pos, blocks, mesh }
    }

    /// The chunk at `pos` whose ground has the heights `heights`, with its
    /// mesh.
    pub fn from_heights(pos: [i32; 2], heights: &[[usize; 16]; 16]) -> (chunk: Chunk)
        ensures
            chunk.pos == pos,
            chunk.wf(),
            is_terrain(chunk.blocks, *heights),
    {
        let blocks = Self::blocks_from_heights(heights);
        let mesh = Mesh::new(pos, &blocks);
        Self { pos, blocks, mesh }
    }

    /// The blocks of the chunk at `pos` on the terrain that `height_fn`
    /// describes: `height_fn` gives the height of the ground at a world
    /// position `(x, z)`.
    pub fn generate_blocks<F: Fn(i64, i64) -> usize>(pos: [i32; 2], height_fn: &F) -> (blocks: Vec<
        Vec<Vec<Block>>,
    >)
        requires
            forall|wx: i64, wz: i64| height_fn.requires((wx, wz)),
        ensures
            grid_wf(blocks),
            self_culled(blocks),
            on_terrain(pos, blocks, height_fn),
    {
        let heights = Self::sample_heights(pos, height_fn);
        let blocks = Self::blocks_from_heights(&heights);
        assert(sampled(pos, height_fn, heights) && terrain_materials(blocks, heights));
        blocks
    }

    /// Asks `height_fn` for the ground height of every column of the chunk at
    /// `pos`, column by column along x, then z, with the column's world
    /// coordinates.
    pub fn sample_heights<F: Fn(i64, i64) -> usize>(pos: [i32; 2], height_fn: &F) -> (heights: [[usize; 16]; 16])
        requires
            forall|wx: i64, wz: i64| height_fn.requires((wx, wz)),
        ensures
            sampled(pos, height_fn, heights),
    {
        let mut heights: [[usize; 16]; 16] = [[0usize; 16]; 16];
        let mut x: usize = 0;
        while x < CHUNK_X_SIZE
            invariant
                x <= CHUNK_X_SIZE,
                forall|wx: i64, wz: i64| height_fn.requires((wx, wz)),
                forall|i: int, k: int|
                    0 <= i < x && 0 <= k < CHUNK_Z_SIZE ==> height_fn.ensures(
                        (world_coord(pos[0], i) as i64, world_coord(pos[1], k) as i64),
                        #[trigger] heights[i][k],
                    ),
            decreases CHUNK_X_SIZE - x,
        {
            let mut z: usize = 0;
            while z < CHUNK_Z_SIZE
                invariant
                    x < CHUNK_X_SIZE,
                    z <= CHUNK_Z_SIZE,
                    forall|wx: i64, wz: i64| height_fn.requires((wx, wz)),
                    forall|i: int, k: int|
                        (0 <= i < x && 0 <= k < CHUNK_Z_SIZE) || (i == x && 0 <= k < z)
                            ==> height_fn.ensures(
                            (world_coord(pos[0], i) as i64, world_coord(pos[1], k) as i64),
                            #[trigger] heights[i][k],
                        ),
                decreases CHUNK_Z_SIZE - z,
            {
                let world_x: i64 = x as i64 + 16 * (pos[0] as i64);
                let world_z: i64 = z as i64 + 16 * (pos[1] as i64);
                let ground_height: usize = height_fn(world_x, world_z);
                heights[x][z] = ground_height;
                z += 1;
            }
            x += 1;
        }
        heights
    }

    /// The blocks of a chunk whose ground has the heights `heights`, indexed
    /// by x, then z. The material of every cell follows from the height of
    /// its column, and every block shows the faces that no neighbour inside
    /// the chunk hides; the four edges of the chunk are open.
    pub fn blocks_from_heights(heights: &[[usize; 16]; 16]) -> (blocks: Vec<Vec<Vec<Block>>>)
        ensures
            is_terrain(blocks, *heights),
            grid_wf(blocks),
    {
        let mut blocks: Vec<Vec<Vec<Block>>> = Vec::new();
        let mut x: usize = 0;
        while x < CHUNK_X_SIZE
            invariant
                x <= CHUNK_X_SIZE,
                blocks.len() == x,
                forall|i: int| 0 <= i < x ==> (#[trigger] blocks[i]).len() == CHUNK_Y_SIZE,
                forall|i: int, j: int|
                    0 <= i < x && 0 <= j < CHUNK_Y_SIZE ==> (#[trigger] blocks[i][j]).len()
                        == CHUNK_Z_SIZE,
                forall|i: int, j: int, k: int|
                    0 <= i < x && 0 <= j < CHUNK_Y_SIZE && 0 <= k < CHUNK_Z_SIZE ==> (
                    #[trigger] blocks[i][j][k]).mat == terrain_material(j, heights[i][k] as int),
            decreases CHUNK_X_SIZE - x,
        {
            let mut plane: Vec<Vec<Block>> = Vec::new();
            let mut y: usize = 0;
            while y < CHUNK_Y_SIZE
                invariant
                    x < CHUNK_X_SIZE,
                    y <= CHUNK_Y_SIZE,
                    plane.len() == y,
                    forall|j: int| 0 <= j < y ==> (#[trigger] plane[j]).len() == CHUNK_Z_SIZE,
                    forall|j: int, k: int|
                        0 <= j < y && 0 <= k < CHUNK_Z_SIZE ==> (#[trigger] plane[j][k]).mat
                            == terrain_material(j, heights[x as int][k] as int),
                decreases CHUNK_Y_SIZE - y,
            {
                let mut column: Vec<Block> = Vec::new();
                let mut z: usize = 0;
                while z < CHUNK_Z_SIZE
                    invariant
                        x < CHUNK_X_SIZE,
                        y < CHUNK_Y_SIZE,
                        z <= CHUNK_Z_SIZE,
                        column.len() == z,
                        forall|k: int|
                            0 <= k < z ==> (#[trigger] column[k]).mat == terrain_material(
                                y as int,
                                heights[x as int][k] as int,
                            ),
                    decreases CHUNK_Z_SIZE - z,
                {
                    let block_type = Self::block_type_at(y, heights[x][z]);
                    column.push(Block::new(block_type, [true; 6]));
                    z += 1;
                }
                plane.push(column);
                y += 1;
            }
            blocks.push(plane);
            x += 1;
        }
        cull_within(&mut blocks);
        blocks
    }

    /// The material of layer `y` of a column whose ground is `ground_height`
    /// blocks high.
    pub fn block_type_at(y: usize, ground_height: usize) -> (mat: BlockType)
        ensures
            mat == terrain_material(y as int, ground_height as int),
    {
        let top: usize = ground_height.saturating_sub(1);
        if y < top && y <= STONE_HEIGHT {
            STONE
        } else if y < top && y > STONE_HEIGHT {
            DIRT
        } else if y == top && ground_height > 0 {
            GRASS
        } else {
            AIR
        }
    }

    /// Recomputes the faces of every block from the materials inside the
    /// chunk, with the four edges of the chunk open. The mesh is left as it
    /// is.
    pub fn update_block_faces(&mut self)
        requires
            grid_shaped(old(self).blocks),
        ensures
            final(self).pos == old(self).pos,
            final(self).mesh == old(self).mesh,
            grid_wf(final(self).blocks),
            same_materials(final(self).blocks, old(self).blocks),
            self_culled(final(self).blocks),
    {
        cull_within(&mut self.blocks);
    }

    /// Rebuilds the mesh from the blocks.
    pub fn regenerate_mesh(&mut self)
        requires
            grid_wf(old(self).blocks),
        ensures
            final(self).pos == old(self).pos,
            final(self).blocks == old(self).blocks,
            final(self).wf(),
            old(self).wf() ==> final(self)@ == old(self)@,
    {
        self.mesh = Mesh::new(self.pos, &self.blocks);
    }

    /// The block at the position `pos` inside the chunk, or `None` where
    /// `pos` names no cell of it.
    pub fn get_block(&self, pos: [i32; 3]) -> (block: Option<Block>)
        requires
            grid_shaped(self.blocks),
        ensures
            in_chunk(pos[0] as int, pos[1] as int, pos[2] as int) ==> block == Some(
                self.blocks[pos[0] as int][pos[1] as int][pos[2] as int],
            ),
            !in_chunk(pos[0] as int, pos[1] as int, pos[2] as int) ==> block.is_none(),
    {
        if pos[0] < 0 || pos[1] < 0 || pos[2] < 0 {
            return None;
        }
        let x: usize = pos[0] as usize;
        let y: usize = pos[1] as usize;
        let z: usize = pos[2] as usize;
        if x >= CHUNK_X_SIZE || y >= CHUNK_Y_SIZE || z >= CHUNK_Z_SIZE {
            return None;
        }
        Some(self.blocks[x][y][z])
    }

    /// The position of the world cell `pos` relative to this chunk's origin.
    pub fn get_local_pos(&self, pos: [i32; 3]) -> (local: [i64; 3])
        ensures
            (local[0] as int, local[1] as int, local[2] as int) == self.local_of(pos),
    {
        [
            pos[0] as i64 - 16 * (self.pos[0] as i64),
            pos[1] as i64,
            pos[2] as i64 - 16 * (self.pos[1] as i64),
        ]
    }

    /// Empties the world cell `pos` if it lies inside this chunk, then
    /// recomputes the faces from the materials inside the chunk and rebuilds
    /// the mesh. Outside of the chunk nothing happens.
    pub fn break_block(&mut self, pos: [i32; 3])
        requires
            grid_shaped(old(self).blocks),
        ensures
            final(self).pos == old(self).pos,
            !old(self).spec_contains_position(pos) ==> *final(self) == *old(self),
            old(self).spec_contains_position(pos) ==> {
                &&& Self::edited(
                    old(self).blocks,
                    final(self).blocks,
                    old(self).local_of(pos),
                    AIR,
                )
                &&& self_culled(final(self).blocks)
                &&& final(self).wf()
            },
    {
        let local = self.get_local_pos(pos);
        if local[0] < 0 || local[0] >= CHUNK_X_SIZE as i64 || local[1] < 0 || local[1]
            >= CHUNK_Y_SIZE as i64 || local[2] < 0 || local[2] >= CHUNK_Z_SIZE as i64 {
            return ;
        }
        let x: usize = local[0] as usize;
        let y: usize = local[1] as usize;
        let z: usize = local[2] as usize;
        self.blocks[x][y][z] = Block::new(AIR, [false; 6]);
        self.update_block_faces();
        self.regenerate_mesh();
    }

    /// Puts a block of the material `PLACED` into the world cell `pos` if
    /// that cell lies inside this chunk and is empty, then recomputes the
    /// faces from the materials inside the chunk and rebuilds the mesh.
    /// Outside of the chunk, and on an occupied cell, nothing happens.
    pub fn place_block(&mut self, pos: [i32; 3])
        requires
            grid_shaped(old(self).blocks),
        ensures
            final(self).pos == old(self).pos,
            !old(self).spec_contains_position(pos) || old(self).spec_contains_block(pos)
                ==> *final(self) == *old(self),
            old(self).spec_contains_position(pos) && !old(self).spec_contains_block(pos) ==> {
                &&& Self::edited(
                    old(self).blocks,
                    final(self).blocks,
                    old(self).local_of(pos),
                    PLACED,
                )
                &&& self_culled(final(self).blocks)
                &&& final(self).wf()
            },
    {
        let local = self.get_local_pos(pos);
        if local[0] < 0 || local[0] >= CHUNK_X_SIZE as i64 || local[1] < 0 || local[1]
            >= CHUNK_Y_SIZE as i64 || local[2] < 0 || local[2] >= CHUNK_Z_SIZE as i64 {
            return ;
        }
        let x: usize = local[0] as usize;
        let y: usize = local[1] as usize;
        let z: usize = local[2] as usize;
        if self.blocks[x][y][z].mat != AIR {
            return ;
        }
        self.blocks[x][y][z] = Block::new(PLACED, [false; 6]);
        self.update_block_faces();
        self.regenerate_mesh();
    }

    /// Whether the world cell `pos` lies inside this chunk and holds a block
    /// other than air.
    pub fn contains_block(&self, pos: [i32; 3]) -> (found: bool)
        requires
            grid_shaped(self.blocks),
        ensures
            found == self.spec_contains_block(pos),
    {
        let local = self.get_local_pos(pos);
        if local[0] < 0 || local[0] >= CHUNK_X_SIZE as i64 {
            return false;
        }
        if local[1] < 0 || local[1] >= CHUNK_Y_SIZE as i64 {
            return false;
        }
        if local[2] < 0 || local[2] >= CHUNK_Z_SIZE as i64 {
            return false;
        }
        let x: usize = local[0] as usize;
        let y: usize = local[1] as usize;
        let z: usize = local[2] as usize;
        self.blocks[x][y][z].mat != AIR
    }

    /// Whether the world cell `pos` lies inside this chunk, whatever it
    /// holds.
    #[verifier::when_used_as_spec(spec_contains_position)]
    pub fn contains_position(&self, pos: [i32; 3]) -> (inside: bool)
        ensures
            inside == self.spec_contains_position(pos),
    {
        let local = self.get_local_pos(pos);
        local[0] >= 0 && local[0] < CHUNK_X_SIZE as i64 && local[1] >= 0 && local[1]
            < CHUNK_Y_SIZE as i64 && local[2] >= 0 && local[2] < CHUNK_Z_SIZE as i64
    }

    /// The mesh of a well-formed chunk holds four vertices and six indices
    /// for every face that its blocks show.
    pub proof fn lemma_mesh_size_law(&self)
        requires
            self.wf(),
        ensures
            self.mesh.vertices.len() == 4 * face_count(self.blocks, slot_total()),
            self.mesh.indices.len() == 6 * face_count(self.blocks, slot_total()),
            self.mesh.num_elements == self.mesh.indices.len(),
    {
        lemma_mesh_size(self.pos, self.blocks, slot_total());
        lemma_face_count_bounds(self.blocks, slot_total());
    }
}

/// Chunks are told apart by their position.
impl PartialEq for Chunk {
    fn eq(&self, other: &Self) -> (equal: bool) {
        self.pos[0] == other.pos[0] && self.pos[1] == other.pos[1]
    }
}

impl PartialEqSpecImpl for Chunk {
    open spec fn obeys_eq_spec() -> bool {
        true
    }

    open spec fn eq_spec(&self, other: &Self) -> bool {
        self.pos[0] == other.pos[0] && self.pos[1] == other.pos[1]
    }
}

} // verus!
