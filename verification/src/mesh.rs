use vstd::prelude::*;
use crate::block::{Block, BlockVertex, Face};
use crate::chunk::Mesh;
use crate::grid::{in_chunk, same_blocks, world_coord};

verus! {

/// Number of face slots of a chunk: six for each cell.
pub open spec fn slot_total() -> int {
    393216
}

/// Position of a face slot in the order in which a mesh is built: cells by
/// x, then y, then z, and for each cell the six sides in slot order.
pub open spec fn slot_index(x: int, y: int, z: int, side: int) -> int {
    ((x * 256 + y) * 16 + z) * 6 + side
}

/// The cell of the face slot at position `s`.
pub open spec fn slot_cell(s: int) -> (int, int, int) {
    let c = s / 6;
    (c / 4096, (c / 16) % 256, c % 16)
}

/// The face in the face slot at position `s`, if the block shows one there.
pub open spec fn slot_face(blocks: Vec<Vec<Vec<Block>>>, s: int) -> Option<Face> {
    let (x, y, z) = slot_cell(s);
    blocks[x][y][z].faces[s % 6]
}

/// A vertex moved by `(dx, dy, dz)`.
pub open spec fn shifted(v: BlockVertex, dx: int, dy: int, dz: int) -> BlockVertex {
    BlockVertex {
        position: [
            (v.position[0] + dx) as i64,
            (v.position[1] + dy) as i64,
            (v.position[2] + dz) as i64,
        ],
        tex_coords: v.tex_coords,
    }
}

/// The four vertices of a face, moved by `(dx, dy, dz)`.
pub open spec fn face_vertices(face: Face, dx: int, dy: int, dz: int) -> Seq<BlockVertex> {
    seq![
        shifted(face.verts[0], dx, dy, dz),
        shifted(face.verts[1], dx, dy, dz),
        shifted(face.verts[2], dx, dy, dz),
        shifted(face.verts[3], dx, dy, dz),
    ]
}

/// The six indices of the quad whose first vertex has index `base`.
pub open spec fn face_indices(base: int) -> Seq<u32> {
    Seq::new(6, |i: int| (base + Face::spec_indices()[i]) as u32)
}

/// The vertices that the face slot at position `s` adds to the mesh of the
/// chunk at `pos`: the face's vertices in world coordinates, or nothing.
pub open spec fn slot_vertices(pos: [i32; 2], blocks: Vec<Vec<Vec<Block>>>, s: int) -> Seq<
    BlockVertex,
> {
    let (x, y, z) = slot_cell(s);
    match slot_face(blocks, s) {
        Some(face) => face_vertices(face, world_coord(pos[0], x), y, world_coord(pos[1], z)),
        None => Seq::empty(),
    }
}

/// The vertices of the faces in the first `slots` face slots, in order.
pub open spec fn mesh_vertices(pos: [i32; 2], blocks: Vec<Vec<Vec<Block>>>, slots: int) -> Seq<
    BlockVertex,
>
    decreases slots,
{
    if slots <= 0 {
        Seq::empty()
    } else {
        mesh_vertices(pos, blocks, slots - 1) + slot_vertices(pos, blocks, slots - 1)
    }
}

/// The number of faces in the first `slots` face slots.
pub open spec fn face_count(blocks: Vec<Vec<Vec<Block>>>, slots: int) -> int
    decreases slots,
{
    if slots <= 0 {
        0
    } else {
        face_count(blocks, slots - 1) + if slot_face(blocks, slots - 1).is_some() {
            1int
        } else {
            0int
        }
    }
}

/// The indices of `faces` quads laid out one after the other, four vertices
/// each: quad `f` is drawn as the triangles `(4f, 4f+1, 4f+2)` and
/// `(4f+2, 4f+3, 4f)`.
pub open spec fn quad_indices(faces: int) -> Seq<u32> {
    Seq::new((6 * faces) as nat, |i: int| (4 * (i / 6) + Face::spec_indices()[i % 6]) as u32)
}

/// The vertex and index sequences of a mesh.
pub struct MeshView {
    pub vertices: Seq<BlockVertex>,
    pub indices: Seq<u32>,
    pub num_elements: u32,
}

/// The mesh of a grid of blocks that belongs to the chunk at `pos`: for
/// every face, in slot order, four vertices in world coordinates and six
/// indices.
pub open spec fn mesh_of(pos: [i32; 2], blocks: Vec<Vec<Vec<Block>>>) -> MeshView {
    MeshView {
        vertices: mesh_vertices(pos, blocks, slot_total()),
        indices: quad_indices(face_count(blocks, slot_total())),
        num_elements: (6 * face_count(blocks, slot_total())) as u32,
    }
}

/// A face slot's position determines its cell and side.
pub proof fn lemma_slot_index(x: int, y: int, z: int, side: int)
    requires
        in_chunk(x, y, z),
        0 <= side < 6,
    ensures
        0 <= slot_index(x, y, z, side) < slot_total(),
        slot_cell(slot_index(x, y, z, side)) == (x, y, z),
        slot_index(x, y, z, side) % 6 == side,
{
}

/// There are no more faces than face slots.
pub proof fn lemma_face_count_bounds(blocks: Vec<Vec<Vec<Block>>>, slots: int)
    requires
        0 <= slots,
    ensures
        0 <= face_count(blocks, slots) <= slots,
    decreases slots,
{
    if slots > 0 {
        lemma_face_count_bounds(blocks, slots - 1);
    }
}

/// A mesh holds four vertices and six indices for every face.
pub proof fn lemma_mesh_size(pos: [i32; 2], blocks: Vec<Vec<Vec<Block>>>, slots: int)
    requires
        0 <= slots,
    ensures
        mesh_vertices(pos, blocks, slots).len() == 4 * face_count(blocks, slots),
        quad_indices(face_count(blocks, slots)).len() == 6 * face_count(blocks, slots),
    decreases slots,
{
    lemma_face_count_bounds(blocks, slots);
    if slots > 0 {
        lemma_mesh_size(pos, blocks, slots - 1);
    }
}

/// Adding one quad to `faces` quads appends its six indices.
pub proof fn lemma_quad_indices_step(faces: int)
    requires
        0 <= faces,
    ensures
        quad_indices(faces + 1) == quad_indices(faces) + face_indices(4 * faces),
{
    let a = quad_indices(faces + 1);
    let b = quad_indices(faces) + face_indices(4 * faces);
    assert(a.len() == b.len());
    assert forall|i: int| 0 <= i < a.len() implies a[i] == b[i] by {
        if i >= 6 * faces {
            assert(i / 6 == faces);
            assert(i % 6 == i - 6 * faces);
        }
    }
    assert(a =~= b);
}

/// The first face slots of two grids that hold the same blocks give the same
/// vertices and the same number of faces.
pub proof fn lemma_mesh_prefix_by_blocks(
    pos: [i32; 2],
    a: Vec<Vec<Vec<Block>>>,
    b: Vec<Vec<Vec<Block>>>,
    slots: int,
)
    requires
        same_blocks(a, b),
        0 <= slots <= slot_total(),
    ensures
        mesh_vertices(pos, a, slots) == mesh_vertices(pos, b, slots),
        face_count(a, slots) == face_count(b, slots),
    decreases slots,
{
    if slots > 0 {
        lemma_mesh_prefix_by_blocks(pos, a, b, slots - 1);
        let (x, y, z) = slot_cell(slots - 1);
        assert(in_chunk(x, y, z));
        assert(a[x][y][z] == b[x][y][z]);
    }
}

/// The mesh of a grid depends on its blocks alone: building it again from
/// the same blocks gives the same vertices and indices.
pub proof fn lemma_mesh_by_blocks(pos: [i32; 2], a: Vec<Vec<Vec<Block>>>, b: Vec<Vec<Vec<Block>>>)
    requires
        same_blocks(a, b),
    ensures
        mesh_of(pos, a) == mesh_of(pos, b),
{
    lemma_mesh_prefix_by_blocks(pos, a, b, slot_total());
}

/// Two meshes built from the same blocks of the same chunk hold the same
/// vertices and indices.
pub proof fn lemma_rebuild_is_deterministic(
    pos: [i32; 2],
    blocks: Vec<Vec<Vec<Block>>>,
    first: Mesh,
    second: Mesh,
)
    requires
        first@ == mesh_of(pos, blocks),
        second@ == mesh_of(pos, blocks),
    ensures
        first@ == second@,
        first.vertices@ == second.vertices@,
        first.indices@ == second.indices@,
{
}

/// A vertex moved by `(dx, dy, dz)`.
pub(crate) fn shift(v: BlockVertex, dx: i64, dy: i64, dz: i64) -> (moved: BlockVertex)
    requires
        forall|a: int| 0 <= a < 3 ==> 0 <= #[trigger] v.position[a] <= 1,
        -0x10_0000_0000 <= dx <= 0x10_0000_0000,
        -0x10_0000_0000 <= dy <= 0x10_0000_0000,
        -0x10_0000_0000 <= dz <= 0x10_0000_0000,
    ensures
        moved == shifted(v, dx as int, dy as int, dz as int),
{
    let mut moved = v;
    moved.position[0] = moved.position[0] + dx;
    moved.position[1] = moved.position[1] + dy;
    moved.position[2] = moved.position[2] + dz;
    assert(moved.position =~= shifted(v, dx as int, dy as int, dz as int).position);
    moved
}

/// Appends the four vertices of `face`, moved by `(dx, dy, dz)`, and the six
/// indices of the quad that they form.
pub(crate) fn push_face(
    vertices: &mut Vec<BlockVertex>,
    indices: &mut Vec<u32>,
    face: &Face,
    dx: i64,
    dy: i64,
    dz: i64,
    num_elements: u32,
)
    requires
        forall|k: int, a: int|
            0 <= k < 4 && 0 <= a < 3 ==> 0 <= (#[trigger] face.verts[k].position[a]) <= 1,
        -0x10_0000_0000 <= dx <= 0x10_0000_0000,
        -0x10_0000_0000 <= dy <= 0x10_0000_0000,
        -0x10_0000_0000 <= dz <= 0x10_0000_0000,
        num_elements <= 0x1000_0000,
    ensures
        final(vertices)@ == old(vertices)@ + face_vertices(*face, dx as int, dy as int, dz as int),
        final(indices)@ == old(indices)@ + face_indices(num_elements as int),
{
    let ghost vertices_before = vertices@;
    let ghost indices_before = indices@;
    vertices.push(shift(face.verts[0], dx, dy, dz));
    vertices.push(shift(face.verts[1], dx, dy, dz));
    vertices.push(shift(face.verts[2], dx, dy, dz));
    vertices.push(shift(face.verts[3], dx, dy, dz));
    assert(vertices@ =~= vertices_before + face_vertices(*face, dx as int, dy as int, dz as int));
    let pattern = Face::get_indices();
    let mut k: usize = 0;
    while k < 6
        invariant
            k <= 6,
            num_elements <= 0x1000_0000,
            pattern@ == Face::spec_indices(),
            indices@ == indices_before + face_indices(num_elements as int).subrange(0, k as int),
        decreases 6 - k,
    {
        indices.push(pattern[k] as u32 + num_elements);
        assert(indices@ =~= indices_before + face_indices(num_elements as int).subrange(
            0,
            k + 1,
        ));
        k += 1;
    }
    assert(face_indices(num_elements as int).subrange(0, 6) =~= face_indices(num_elements as int));
}

} // verus!
