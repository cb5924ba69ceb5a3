use vstd::prelude::*;
use crate::block::{FaceDirections, AIR};
use crate::chunk::{CHUNK_Y_SIZE, CHUNK_Z_SIZE};
use crate::grid::{in_chunk, lemma_grid_view_by_blocks, world_coord};
use crate::mesh::lemma_mesh_by_blocks;
use crate::player::{chunk_of, empty_at, first_chunk_at, has_chunk_at, is_first_chunk, loaded, solid_at};
use crate::world::World;

verus! {

impl World {
    /// The state of a world follows from the positions of its chunks and the
    /// materials of its cells: two worlds that agree on these hold the same
    /// blocks, faces and meshes.
    pub proof fn lemma_wf_determined(&self, other: &World)
        requires
            self.wf(),
            other.wf(),
            self.same_materials_as(other),
        ensures
            self@ == other@,
    {
        assert forall|i: int| 0 <= i < self.chunks.len() implies self.chunks[i]@
            == other.chunks[i]@ by {
            let a = self.chunks[i];
            let b = other.chunks[i];
            assert(a.wf() && self.stitched(i));
            assert(b.wf() && other.stitched(i));
            assert(a.pos == b.pos);
            assert forall|x: int, y: int, z: int| in_chunk(x, y, z) implies #[trigger] a.blocks[x][y][z]
                == b.blocks[x][y][z] by {
                assert(a.blocks[x][y][z] == self.stitched_block(i, x, y, z));
                assert(b.blocks[x][y][z] == other.stitched_block(i, x, y, z));
                self.lemma_stitched_block_by_material(other, i, x, y, z);
            }
            lemma_grid_view_by_blocks(a.blocks, b.blocks);
            lemma_mesh_by_blocks(a.pos, a.blocks, b.blocks);
        }
        assert(self@ =~= other@);
    }

    /// In a settled chunk a solid block shows a face on a side exactly where
    /// the next world cell on that side holds air.
    pub proof fn lemma_face_shows_neighbour(&self, i: int, x: int, y: int, z: int, slot: int)
        requires
            0 <= i < self.chunks.len(),
            self.settled(i),
            in_chunk(x, y, z),
            0 <= slot < 6,
            self.chunks[i].blocks[x][y][z].mat != AIR,
        ensures
            self.chunks[i].blocks[x][y][z].has_face(slot) == !self.side_hidden(i, x, y, z, slot),
    {
        assert(self.chunks[i].blocks[x][y][z] == self.stitched_block(i, x, y, z));
    }

    /// Where the chunk at index `a` adjoins the chunk at index `b` on its +X
    /// edge, a solid block on that edge of `a` shows its right face exactly
    /// where the cell across the edge, in `b`, holds air.
    pub proof fn lemma_boundary_symmetry_right(&self, a: int, b: int, y: int, z: int)
        requires
            self.wf(),
            0 <= a < self.chunks.len(),
            0 <= b < self.chunks.len(),
            self.chunks[b].pos[0] == self.chunks[a].pos[0] + 1,
            self.chunks[b].pos[1] == self.chunks[a].pos[1],
            0 <= y < CHUNK_Y_SIZE,
            0 <= z < CHUNK_Z_SIZE,
            self.chunks[a].blocks[15][y][z].mat != AIR,
        ensures
            self.chunks[a].blocks[15][y][z].has_face(3) == !(self.chunks[b].blocks[0][y][z].mat
                != AIR),
    {
        assert(self.chunks[a].wf() && self.stitched(a));
        self.lemma_face_shows_neighbour(a, 15, y, z, 3);
        let wx = world_coord(self.chunks[a].pos[0], 15) + 1;
        let wz = world_coord(self.chunks[a].pos[1], z);
        assert(wx == 16 * self.chunks[b].pos[0]);
        assert(wx / 16 == self.chunks[b].pos[0] && wx % 16 == 0);
        assert(wz / 16 == self.chunks[b].pos[1] && wz % 16 == z);
        self.lemma_material_of_chunk(b, 0, y, z);
    }

    /// Where the chunk at index `a` adjoins the chunk at index `b` on its +X
    /// edge, a solid block on the -X edge of `b` shows its left face exactly
    /// where the cell across the edge, in `a`, holds air.
    pub proof fn lemma_boundary_symmetry_left(&self, a: int, b: int, y: int, z: int)
        requires
            self.wf(),
            0 <= a < self.chunks.len(),
            0 <= b < self.chunks.len(),
            self.chunks[b].pos[0] == self.chunks[a].pos[0] + 1,
            self.chunks[b].pos[1] == self.chunks[a].pos[1],
            0 <= y < CHUNK_Y_SIZE,
            0 <= z < CHUNK_Z_SIZE,
            self.chunks[b].blocks[0][y][z].mat != AIR,
        ensures
            self.chunks[b].blocks[0][y][z].has_face(2) == !(self.chunks[a].blocks[15][y][z].mat
                != AIR),
    {
        assert(self.chunks[b].wf() && self.stitched(b));
        self.lemma_face_shows_neighbour(b, 0, y, z, 2);
        let wx = world_coord(self.chunks[b].pos[0], 0) - 1;
        let wz = world_coord(self.chunks[b].pos[1], z);
        assert(wx == 16 * self.chunks[a].pos[0] + 15);
        assert(wx / 16 == self.chunks[a].pos[0] && wx % 16 == 15);
        assert(wz / 16 == self.chunks[a].pos[1] && wz % 16 == z);
        self.lemma_material_of_chunk(a, 15, y, z);
    }

    /// The material that the chunk covering a world cell holds there is the
    /// material of the world at the cell's coordinates.
    pub proof fn lemma_material_of_is_material_at(&self, pos: [i32; 3])
        requires
            self.distinct(),
        ensures
            self.material_of(pos) == self.material_at(pos[0] as int, pos[1] as int, pos[2] as int),
    {
        reveal(World::material_in);
        let cx = pos[0] as int / 16;
        let cz = pos[2] as int / 16;
        if self.covers(pos) {
            let i = self.holder(pos);
            assert(self.holds(i, pos));
            assert(self.chunks[i].pos[0] == cx && self.chunks[i].pos[1] == cz);
            self.lemma_index_unique(i, cx, cz);
        } else if 0 <= pos[1] < 256 && self.has_chunk(cx, cz) {
            let i = self.chunk_index(cx, cz);
            assert(self.is_at(i, cx, cz));
            assert(self.holds(i, pos));
        }
    }

    /// Block picking sees the world: a cell counts as solid for a ray exactly
    /// where the world holds a block other than air, and as known to be free
    /// exactly where a chunk stands over its column and the world holds air.
    pub proof fn lemma_picking_sees_world(&self, pos: [i32; 3])
        requires
            self.distinct(),
        ensures
            solid_at(self.chunks@, pos) == (self.material_of(pos) != AIR),
            loaded(self.chunks@, pos) == self.has_chunk(pos[0] as int / 16, pos[2] as int / 16),
            empty_at(self.chunks@, pos) == (self.has_chunk(pos[0] as int / 16, pos[2] as int / 16)
                && self.material_of(pos) == AIR),
    {
        let cx = pos[0] as int / 16;
        let cz = pos[2] as int / 16;
        if self.has_chunk(cx, cz) {
            let i = self.chunk_index(cx, cz);
            assert(self.is_at(i, cx, cz));
            assert forall|j: int| 0 <= j < i implies (#[trigger] self.chunks[j]).pos[0] != cx
                || self.chunks[j].pos[1] != cz by {
                assert(self.chunks[j].pos[0] != self.chunks[i].pos[0] || self.chunks[j].pos[1]
                    != self.chunks[i].pos[1]);
            }
            assert(is_first_chunk(self.chunks@, i, cx, cz));
            let k = first_chunk_at(self.chunks@, cx, cz);
            assert(is_first_chunk(self.chunks@, k, cx, cz));
            assert(self.is_at(k, cx, cz));
            self.lemma_index_unique(k, cx, cz);
            assert(chunk_of(self.chunks@, pos) == i);
            if 0 <= pos[1] < 256 {
                assert(self.holds(i, pos));
                self.lemma_holder_unique(i, pos);
            } else {
                if self.covers(pos) {
                    assert(self.holds(self.holder(pos), pos));
                }
            }
        } else {
            if has_chunk_at(self.chunks@, cx, cz) {
                let k = first_chunk_at(self.chunks@, cx, cz);
                assert(is_first_chunk(self.chunks@, k, cx, cz));
                assert(self.is_at(k, cx, cz));
            }
            if self.covers(pos) {
                let h = self.holder(pos);
                assert(self.holds(h, pos));
                assert(self.is_at(h, cx, cz));
            }
        }
    }

    /// After a block was broken its cell holds air, every other cell holds
    /// what it held, and every solid block next to the cell, in the same
    /// chunk or across a chunk edge, shows the face that looks at the cell.
    pub proof fn lemma_break_consistent(&self, after: &World, pos: [i32; 3])
        requires
            self.wf(),
            after.wf(),
            self.material_of(pos) != AIR,
            after.edited_from(
                self,
                self.holder(pos),
                self.chunks[self.holder(pos)].local_of(pos),
                AIR,
            ),
        ensures
            after.material_of(pos) == AIR,
            after.chunks[self.holder(pos)].blocks[pos[0] - 16 * self.chunks[self.holder(
                pos,
            )].pos[0]][pos[1] as int][pos[2] - 16 * self.chunks[self.holder(pos)].pos[1]].mat
                == AIR,
            forall|wx: int, wy: int, wz: int|
                (wx, wy, wz) != (pos[0] as int, pos[1] as int, pos[2] as int)
                    ==> #[trigger] after.material_at(wx, wy, wz) == self.material_at(wx, wy, wz),
            forall|j: int, x: int, y: int, z: int, slot: int|
                #![trigger after.chunks[j].blocks[x][y][z].has_face(slot)]
                0 <= j < after.chunks.len() && in_chunk(x, y, z) && 0 <= slot < 6
                    && after.chunks[j].blocks[x][y][z].mat != AIR && ({
                    let n = FaceDirections::of_slot(slot).normal();
                    &&& world_coord(after.chunks[j].pos[0], x) + n.0 == pos[0]
                    &&& y + n.1 == pos[1]
                    &&& world_coord(after.chunks[j].pos[1], z) + n.2 == pos[2]
                }) ==> after.chunks[j].blocks[x][y][z].has_face(slot),
    {
        let i = self.holder(pos);
        assert(self.holds(i, pos));
        let cell = self.chunks[i].local_of(pos);
        let cx = self.chunks[i].pos[0] as int;
        let cz = self.chunks[i].pos[1] as int;
        assert(pos[0] as int / 16 == cx && pos[0] as int % 16 == cell.0);
        assert(pos[2] as int / 16 == cz && pos[2] as int % 16 == cell.2);
        assert(after.chunks[i].pos == self.chunks[i].pos);
        assert(after.holds(i, pos));
        after.lemma_holder_unique(i, pos);
        assert(after.chunks[i].blocks[cell.0][cell.1][cell.2].mat == AIR);
        assert forall|wx: int, wy: int, wz: int|
            (wx, wy, wz) != (pos[0] as int, pos[1] as int, pos[2] as int) implies #[trigger] after.material_at(
            wx,
            wy,
            wz,
        ) == self.material_at(wx, wy, wz) by {
            after.lemma_material_in_edit(self, i, cell, AIR, wx / 16, wz / 16, wx % 16, wy, wz % 16);
        }
        after.lemma_material_in_edit(self, i, cell, AIR, cx, cz, cell.0, cell.1, cell.2);
        assert forall|j: int, x: int, y: int, z: int, slot: int|
            #![trigger after.chunks[j].blocks[x][y][z].has_face(slot)]
            0 <= j < after.chunks.len() && in_chunk(x, y, z) && 0 <= slot < 6
                && after.chunks[j].blocks[x][y][z].mat != AIR && ({
                let n = FaceDirections::of_slot(slot).normal();
                &&& world_coord(after.chunks[j].pos[0], x) + n.0 == pos[0]
                &&& y + n.1 == pos[1]
                &&& world_coord(after.chunks[j].pos[1], z) + n.2 == pos[2]
            }) implies after.chunks[j].blocks[x][y][z].has_face(slot) by {
            assert(after.chunks[j].wf() && after.stitched(j));
            after.lemma_face_shows_neighbour(j, x, y, z, slot);
        }
    }
}

} // verus!
