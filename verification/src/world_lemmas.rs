use vstd::prelude::*;
use crate::block::{BlockType, FaceDirections};
use crate::chunk::Chunk;
use crate::culling::{neighbour_solid, Boundary};
use crate::grid::{grid_shaped, grid_wf, in_chunk, same_materials, world_coord};
use crate::world::World;

verus! {

impl World {
    /// In a world without two chunks at one position, a chunk's position
    /// names that chunk.
    pub proof fn lemma_index_unique(&self, i: int, cx: int, cz: int)
        requires
            self.distinct(),
            self.is_at(i, cx, cz),
        ensures
            self.has_chunk(cx, cz),
            self.chunk_index(cx, cz) == i,
    {
        let k = self.chunk_index(cx, cz);
        assert(self.is_at(k, cx, cz));
        if k < i {
            assert(self.chunks[k].pos[0] != self.chunks[i].pos[0] || self.chunks[k].pos[1]
                != self.chunks[i].pos[1]);
        } else if i < k {
            assert(self.chunks[i].pos[0] != self.chunks[k].pos[0] || self.chunks[i].pos[1]
                != self.chunks[k].pos[1]);
        }
    }

    /// The material of a cell of a chunk, named by the chunk's position.
    pub proof fn lemma_material_of_chunk(&self, i: int, x: int, y: int, z: int)
        requires
            self.distinct(),
            0 <= i < self.chunks.len(),
            in_chunk(x, y, z),
        ensures
            self.material_in(self.chunks[i].pos[0] as int, self.chunks[i].pos[1] as int, x, y, z)
                == self.chunks[i].blocks[x][y][z].mat,
    {
        reveal(World::material_in);
        self.lemma_index_unique(i, self.chunks[i].pos[0] as int, self.chunks[i].pos[1] as int);
    }

    /// Worlds with the same chunk positions and the same materials hold the
    /// same material everywhere.
    pub proof fn lemma_same_materials(&self, other: &World, cx: int, cz: int, x: int, y: int, z: int)
        requires
            self.distinct(),
            self.same_materials_as(other),
        ensures
            self.material_in(cx, cz, x, y, z) == other.material_in(cx, cz, x, y, z),
    {
        reveal(World::material_in);
        assert forall|i: int| self.is_at(i, cx, cz) == other.is_at(i, cx, cz) by {
            if 0 <= i < self.chunks.len() {
                assert(self.chunks[i].pos == other.chunks[i].pos);
            }
        }
        assert forall|i: int, j: int| 0 <= i < j < other.chunks.len() implies (
        #[trigger] other.chunks[i]).pos[0] != (#[trigger] other.chunks[j]).pos[0]
            || other.chunks[i].pos[1] != other.chunks[j].pos[1] by {
            assert(self.chunks[i].pos == other.chunks[i].pos);
            assert(self.chunks[j].pos == other.chunks[j].pos);
        }
        if in_chunk(x, y, z) && self.has_chunk(cx, cz) {
            let i = self.chunk_index(cx, cz);
            assert(self.is_at(i, cx, cz));
            assert(other.is_at(i, cx, cz));
            other.lemma_index_unique(i, cx, cz);
            assert(self.chunks[i].blocks[x][y][z].mat == other.chunks[i].blocks[x][y][z].mat);
        } else if in_chunk(x, y, z) && other.has_chunk(cx, cz) {
            let i = other.chunk_index(cx, cz);
            assert(other.is_at(i, cx, cz));
            assert(self.is_at(i, cx, cz));
        }
    }

    /// The boundaries of the four adjoining chunks show a chunk what the
    /// world holds next to its cells.
    pub proof fn lemma_boundaries_show_world(
        &self,
        i: int,
        left: Boundary,
        right: Boundary,
        back: Boundary,
        front: Boundary,
        x: int,
        y: int,
        z: int,
        slot: int,
    )
        requires
            0 <= i < self.chunks.len(),
            self.distinct(),
            forall|j: int| 0 <= j < self.chunks.len() ==> grid_shaped((#[trigger] self.chunks[j]).blocks),
            self.is_side_of(left, self.chunks[i].pos[0] - 1, self.chunks[i].pos[1] as int, 3),
            self.is_side_of(right, self.chunks[i].pos[0] + 1, self.chunks[i].pos[1] as int, 2),
            self.is_side_of(back, self.chunks[i].pos[0] as int, self.chunks[i].pos[1] - 1, 1),
            self.is_side_of(front, self.chunks[i].pos[0] as int, self.chunks[i].pos[1] + 1, 0),
            in_chunk(x, y, z),
            0 <= slot < 6,
        ensures
            neighbour_solid(self.chunks[i].blocks, left, right, back, front, x, y, z, slot)
                == self.side_hidden(i, x, y, z, slot),
    {
        reveal(neighbour_solid);
        reveal(World::material_in);
        let cx = self.chunks[i].pos[0] as int;
        let cz = self.chunks[i].pos[1] as int;
        let n = FaceDirections::of_slot(slot).normal();
        let (nx, ny, nz) = (x + n.0, y + n.1, z + n.2);
        let wx = world_coord(self.chunks[i].pos[0], x) + n.0;
        let wz = world_coord(self.chunks[i].pos[1], z) + n.2;
        assert(wx == 16 * cx + nx);
        assert(wz == 16 * cz + nz);
        if in_chunk(nx, ny, nz) {
            assert(wx / 16 == cx && wx % 16 == nx);
            assert(wz / 16 == cz && wz % 16 == nz);
            self.lemma_index_unique(i, cx, cz);
        } else if nx < 0 {
            assert(wx / 16 == cx - 1 && wx % 16 == 15);
            assert(wz / 16 == cz && wz % 16 == z);
        } else if nx >= 16 {
            assert(wx / 16 == cx + 1 && wx % 16 == 0);
            assert(wz / 16 == cz && wz % 16 == z);
        } else if nz < 0 {
            assert(wx / 16 == cx && wx % 16 == x);
            assert(wz / 16 == cz - 1 && wz % 16 == 15);
        } else if nz >= 16 {
            assert(wx / 16 == cx && wx % 16 == x);
            assert(wz / 16 == cz + 1 && wz % 16 == 0);
        } else {
        }
    }

    /// The faces that the world calls for depend on its materials alone.
    pub proof fn lemma_stitched_block_by_material(
        &self,
        other: &World,
        i: int,
        x: int,
        y: int,
        z: int,
    )
        requires
            self.distinct(),
            self.same_materials_as(other),
            0 <= i < self.chunks.len(),
            in_chunk(x, y, z),
        ensures
            self.stitched_block(i, x, y, z) == other.stitched_block(i, x, y, z),
    {
        assert(self.chunks[i].pos == other.chunks[i].pos);
        assert(self.chunks[i].blocks[x][y][z].mat == other.chunks[i].blocks[x][y][z].mat);
        assert forall|slot: int| 0 <= slot < 6 implies self.side_hidden(i, x, y, z, slot)
            == other.side_hidden(i, x, y, z, slot) by {
            let n = FaceDirections::of_slot(slot).normal();
            let wx = world_coord(self.chunks[i].pos[0], x) + n.0;
            let wz = world_coord(self.chunks[i].pos[1], z) + n.2;
            self.lemma_same_materials(other, wx / 16, wz / 16, wx % 16, y + n.1, wz % 16);
        }
        assert(self.hidden_sides(i, x, y, z) =~= other.hidden_sides(i, x, y, z));
    }

    /// A settled chunk stays settled while it keeps its blocks and its mesh,
    /// and the world its materials.
    pub proof fn lemma_settled_transfer(&self, other: &World, i: int)
        requires
            self.distinct(),
            self.same_materials_as(other),
            0 <= i < self.chunks.len(),
            self.settled(i),
            self.chunks[i] == other.chunks[i],
        ensures
            other.settled(i),
    {
        assert forall|x: int, y: int, z: int| in_chunk(x, y, z) implies #[trigger] other.chunks[i].blocks[x][y][z]
            == other.stitched_block(i, x, y, z) by {
            assert(self.chunks[i].blocks[x][y][z] == self.stitched_block(i, x, y, z));
            self.lemma_stitched_block_by_material(other, i, x, y, z);
        }
    }

    /// In a world without two chunks at one position, at most one chunk
    /// covers a world cell.
    pub proof fn lemma_holder_unique(&self, i: int, pos: [i32; 3])
        requires
            self.distinct(),
            self.holds(i, pos),
        ensures
            self.covers(pos),
            self.holder(pos) == i,
    {
        let k = self.holder(pos);
        assert(self.holds(k, pos));
        if k < i {
            assert(self.chunks[k].pos[0] != self.chunks[i].pos[0] || self.chunks[k].pos[1]
                != self.chunks[i].pos[1]);
        } else if i < k {
            assert(self.chunks[i].pos[0] != self.chunks[k].pos[0] || self.chunks[i].pos[1]
                != self.chunks[k].pos[1]);
        }
    }

    /// Worlds with the same chunk positions name the same chunk at every
    /// position.
    pub proof fn lemma_same_positions(&self, other: &World, cx: int, cz: int, on_edge: bool)
        requires
            self.distinct(),
            self.chunks.len() == other.chunks.len(),
            forall|j: int|
                0 <= j < self.chunks.len() ==> (#[trigger] self.chunks[j]).pos
                    == other.chunks[j].pos,
        ensures
            other.distinct(),
            self.has_chunk(cx, cz) == other.has_chunk(cx, cz),
            self.has_chunk(cx, cz) ==> self.chunk_index(cx, cz) == other.chunk_index(cx, cz),
            self.touched(cx, cz, on_edge) == other.touched(cx, cz, on_edge),
    {
        assert forall|i: int| self.is_at(i, cx, cz) == other.is_at(i, cx, cz) by {
            if 0 <= i < self.chunks.len() {
                assert(self.chunks[i].pos == other.chunks[i].pos);
            }
        }
        assert forall|i: int, j: int| 0 <= i < j < other.chunks.len() implies (
        #[trigger] other.chunks[i]).pos[0] != (#[trigger] other.chunks[j]).pos[0]
            || other.chunks[i].pos[1] != other.chunks[j].pos[1] by {
            assert(self.chunks[i].pos == other.chunks[i].pos);
            assert(self.chunks[j].pos == other.chunks[j].pos);
        }
        if self.has_chunk(cx, cz) {
            let i = self.chunk_index(cx, cz);
            assert(self.is_at(i, cx, cz));
            assert(other.is_at(i, cx, cz));
            other.lemma_index_unique(i, cx, cz);
        } else if other.has_chunk(cx, cz) {
            let i = other.chunk_index(cx, cz);
            assert(other.is_at(i, cx, cz));
            assert(self.is_at(i, cx, cz));
        }
    }

    /// After the material of one cell has changed, every other cell holds
    /// what it held before.
    pub proof fn lemma_material_in_edit(
        &self,
        before: &World,
        i: int,
        cell: (int, int, int),
        mat: BlockType,
        cx: int,
        cz: int,
        x: int,
        y: int,
        z: int,
    )
        requires
            before.distinct(),
            self.edited_from(before, i, cell, mat),
            0 <= i < before.chunks.len(),
            in_chunk(cell.0, cell.1, cell.2),
        ensures
            self.material_in(cx, cz, x, y, z) == (if cx == before.chunks[i].pos[0] && cz
                == before.chunks[i].pos[1] && (x, y, z) == cell {
                mat
            } else {
                before.material_in(cx, cz, x, y, z)
            }),
    {
        reveal(World::material_in);
        before.lemma_same_positions(self, cx, cz, true);
        before.lemma_index_unique(i, before.chunks[i].pos[0] as int, before.chunks[i].pos[1] as int);
        if in_chunk(x, y, z) && before.has_chunk(cx, cz) {
            let k = before.chunk_index(cx, cz);
            assert(before.is_at(k, cx, cz));
            assert(self.chunks[k].blocks[x][y][z].mat == (if k == i && (x, y, z) == cell {
                mat
            } else {
                before.chunks[k].blocks[x][y][z].mat
            }));
        }
    }

    /// A change of the material of a cell of one chunk leaves what the cells
    /// of another chunk see beside them as it was, unless that chunk adjoins
    /// the changed chunk along an edge on which the cell lies.
    pub proof fn lemma_side_survives_edit(
        &self,
        before: &World,
        i: int,
        cell: (int, int, int),
        mat: BlockType,
        j: int,
        x: int,
        y: int,
        z: int,
        slot: int,
    )
        requires
            before.distinct(),
            self.edited_from(before, i, cell, mat),
            0 <= i < before.chunks.len(),
            in_chunk(cell.0, cell.1, cell.2),
            0 <= j < before.chunks.len(),
            j != i,
            !before.edge_neighbour(j, i, cell),
            in_chunk(x, y, z),
            0 <= slot < 6,
        ensures
            self.side_hidden(j, x, y, z, slot) == before.side_hidden(j, x, y, z, slot),
    {
        let pi = before.chunks[i].pos;
        let pj = before.chunks[j].pos;
        assert(self.chunks[j].pos == pj);
        assert(pi[0] != pj[0] || pi[1] != pj[1]) by {
            if i < j {
                assert(before.chunks[i].pos[0] != before.chunks[j].pos[0]
                    || before.chunks[i].pos[1] != before.chunks[j].pos[1]);
            } else {
                assert(before.chunks[j].pos[0] != before.chunks[i].pos[0]
                    || before.chunks[j].pos[1] != before.chunks[i].pos[1]);
            }
        }
        let n = FaceDirections::of_slot(slot).normal();
        let nx = x + n.0;
        let nz = z + n.2;
        let wx = world_coord(pj[0], x) + n.0;
        let wz = world_coord(pj[1], z) + n.2;
        assert(wx == 16 * pj[0] + nx);
        assert(wz == 16 * pj[1] + nz);
        assert(-1 <= nx <= 16 && -1 <= nz <= 16);
        let qx = wx / 16;
        let rx = wx % 16;
        let qz = wz / 16;
        let rz = wz % 16;
        assert(qx == pj[0] + (if nx < 0 { -1int } else if nx >= 16 { 1int } else { 0int }));
        assert(rx == (if nx < 0 { 15 } else if nx >= 16 { 0 } else { nx }));
        assert(qz == pj[1] + (if nz < 0 { -1int } else if nz >= 16 { 1int } else { 0int }));
        assert(rz == (if nz < 0 { 15 } else if nz >= 16 { 0 } else { nz }));
        assert(nx == x || nz == z);
        self.lemma_material_in_edit(before, i, cell, mat, qx, qz, rx, y + n.1, rz);
        if qx == pi[0] && qz == pi[1] && (rx, y + n.1, rz) == cell {
            if nx < 0 {
                assert(cell.0 == 15 && pj[0] == pi[0] + 1 && pj[1] == pi[1]);
            } else if nx >= 16 {
                assert(cell.0 == 0 && pj[0] == pi[0] - 1 && pj[1] == pi[1]);
            } else if nz < 0 {
                assert(cell.2 == 15 && pj[0] == pi[0] && pj[1] == pi[1] + 1);
            } else if nz >= 16 {
                assert(cell.2 == 0 && pj[0] == pi[0] && pj[1] == pi[1] - 1);
            } else {
                assert(pj[0] == pi[0] && pj[1] == pi[1]);
            }
            assert(before.edge_neighbour(j, i, cell));
        }
    }

    /// A settled chunk stays settled when the material of a cell changes in
    /// another chunk, unless it adjoins that chunk along an edge on which
    /// the cell lies.
    pub proof fn lemma_settled_survives_edit(
        &self,
        before: &World,
        i: int,
        cell: (int, int, int),
        mat: BlockType,
        j: int,
    )
        requires
            before.distinct(),
            self.edited_from(before, i, cell, mat),
            0 <= i < before.chunks.len(),
            in_chunk(cell.0, cell.1, cell.2),
            0 <= j < before.chunks.len(),
            j != i,
            !before.edge_neighbour(j, i, cell),
            before.settled(j),
            self.chunks[j] == before.chunks[j],
        ensures
            self.settled(j),
    {
        assert forall|x: int, y: int, z: int| in_chunk(x, y, z) implies #[trigger] self.chunks[j].blocks[x][y][z]
            == self.stitched_block(j, x, y, z) by {
            assert(before.chunks[j].blocks[x][y][z] == before.stitched_block(j, x, y, z));
            self.lemma_side_survives_edit(before, i, cell, mat, j, x, y, z, 0);
            self.lemma_side_survives_edit(before, i, cell, mat, j, x, y, z, 1);
            self.lemma_side_survives_edit(before, i, cell, mat, j, x, y, z, 2);
            self.lemma_side_survives_edit(before, i, cell, mat, j, x, y, z, 3);
            self.lemma_side_survives_edit(before, i, cell, mat, j, x, y, z, 4);
            self.lemma_side_survives_edit(before, i, cell, mat, j, x, y, z, 5);
            assert(self.hidden_sides(j, x, y, z) =~= before.hidden_sides(j, x, y, z));
        }
    }

    /// Holding the same materials carries over from world to world.
    pub proof fn lemma_same_materials_chain(&self, second: &World, third: &World)
        requires
            second.same_materials_as(self),
            third.same_materials_as(second),
        ensures
            third.same_materials_as(self),
    {
        assert forall|i: int| 0 <= i < third.chunks.len() implies {
            &&& (#[trigger] third.chunks[i]).pos == self.chunks[i].pos
            &&& same_materials(third.chunks[i].blocks, self.chunks[i].blocks)
        } by {
            assert(third.chunks[i].pos == second.chunks[i].pos);
            assert(second.chunks[i].pos == self.chunks[i].pos);
            assert forall|x: int, y: int, z: int| in_chunk(x, y, z) implies (
            #[trigger] third.chunks[i].blocks[x][y][z]).mat == self.chunks[i].blocks[x][y][z].mat by {
                assert(third.chunks[i].blocks[x][y][z].mat == second.chunks[i].blocks[x][y][z].mat);
                assert(second.chunks[i].blocks[x][y][z].mat == self.chunks[i].blocks[x][y][z].mat);
            }
        }
    }

    /// A world that holds the materials of an edited world is an edited
    /// world too.
    pub proof fn lemma_edit_then_same(
        &self,
        before: &World,
        edited: &World,
        i: int,
        cell: (int, int, int),
        mat: BlockType,
    )
        requires
            edited.edited_from(before, i, cell, mat),
            self.same_materials_as(edited),
        ensures
            self.edited_from(before, i, cell, mat),
    {
        assert forall|j: int| 0 <= j < self.chunks.len() implies (#[trigger] self.chunks[j]).pos
            == before.chunks[j].pos by {
            assert(self.chunks[j].pos == edited.chunks[j].pos);
        }
        assert forall|j: int, x: int, y: int, z: int|
            0 <= j < self.chunks.len() && in_chunk(x, y, z) implies (
        #[trigger] self.chunks[j].blocks[x][y][z]).mat == (if j == i && (x, y, z) == cell {
            mat
        } else {
            before.chunks[j].blocks[x][y][z].mat
        }) by {
            assert(same_materials(self.chunks[j].blocks, edited.chunks[j].blocks));
            assert(self.chunks[j].blocks[x][y][z].mat == edited.chunks[j].blocks[x][y][z].mat);
        }
    }

    /// After one chunk of a well-formed world has changed the material of
    /// one of its cells, the world still has distinct positions and
    /// well-formed grids, and every chunk is still settled that is neither
    /// the changed chunk nor adjoins it along an edge on which the cell
    /// lies.
    pub proof fn lemma_after_chunk_edit(
        &self,
        before: &World,
        i: int,
        cell: (int, int, int),
        mat: BlockType,
    )
        requires
            before.wf(),
            0 <= i < before.chunks.len(),
            in_chunk(cell.0, cell.1, cell.2),
            self.chunks.len() == before.chunks.len(),
            forall|j: int|
                0 <= j < self.chunks.len() && j != i ==> (#[trigger] self.chunks[j])
                    == before.chunks[j],
            self.chunks[i].pos == before.chunks[i].pos,
            grid_wf(self.chunks[i].blocks),
            Chunk::edited(before.chunks[i].blocks, self.chunks[i].blocks, cell, mat),
        ensures
            self.distinct(),
            self.grids_wf(),
            self.edited_from(before, i, cell, mat),
            forall|j: int|
                0 <= j < self.chunks.len() && j != i && !before.edge_neighbour(j, i, cell)
                    ==> self.settled(j),
    {
        assert forall|j: int| 0 <= j < self.chunks.len() implies (#[trigger] self.chunks[j]).pos
            == before.chunks[j].pos by {}
        assert forall|j: int, x: int, y: int, z: int|
            0 <= j < self.chunks.len() && in_chunk(x, y, z) implies (
        #[trigger] self.chunks[j].blocks[x][y][z]).mat == (if j == i && (x, y, z) == cell {
            mat
        } else {
            before.chunks[j].blocks[x][y][z].mat
        }) by {
            if j != i {
                assert(self.chunks[j] == before.chunks[j]);
            }
        }
        before.lemma_same_positions(self, 0, 0, true);
        assert forall|j: int| 0 <= j < self.chunks.len() implies grid_wf(
            (#[trigger] self.chunks[j]).blocks,
        ) by {
            if j != i {
                assert(before.chunks[j].wf());
            }
        }
        assert forall|j: int|
            0 <= j < self.chunks.len() && j != i && !before.edge_neighbour(
                j,
                i,
                cell,
            ) implies self.settled(j) by {
            assert(before.chunks[j].wf() && before.stitched(j));
            self.lemma_settled_survives_edit(before, i, cell, mat, j);
        }
    }
}

} // verus!
