use vstd::prelude::*;
use crate::texture_atlas::TextureAtlas;

verus! {

/// Identifier of a block's material.
pub type BlockType = u32;

/// The material of an empty cell. Air has no geometry and hides nothing.
pub const AIR: BlockType = 0;

/// One corner of a face: a position in whole block units and a texture
/// coordinate in atlas tiles.
#[derive(Copy, Clone, Debug, PartialEq, Eq)]
pub struct BlockVertex {
    pub position: [i64; 3],
    pub tex_coords: [u32; 2],
}

/// The six sides of a block.
#[derive(Copy, Clone, Debug, PartialEq, Eq, Structural)]
pub enum FaceDirections {
    /// Towards +Z.
    FRONT,
    /// Towards -Z.
    BACK,
    /// Towards -X.
    LEFT,
    /// Towards +X.
    RIGHT,
    /// Towards +Y.
    TOP,
    /// Towards -Y.
    BOTTOM,
}

impl FaceDirections {
    /// The side kept in slot `i` of a block's face array: back, front, left,
    /// right, top, bottom.
    pub open spec fn of_slot(i: int) -> FaceDirections {
        if i == 0 {
            FaceDirections::BACK
        } else if i == 1 {
            FaceDirections::FRONT
        } else if i == 2 {
            FaceDirections::LEFT
        } else if i == 3 {
            FaceDirections::RIGHT
        } else if i == 4 {
            FaceDirections::TOP
        } else {
            FaceDirections::BOTTOM
        }
    }

    /// The step from a cell to its neighbour on this side.
    pub open spec fn normal(self) -> (int, int, int) {
        match self {
            FaceDirections::FRONT => (0, 0, 1),
            FaceDirections::BACK => (0, 0, -1),
            FaceDirections::LEFT => (-1, 0, 0),
            FaceDirections::RIGHT => (1, 0, 0),
            FaceDirections::TOP => (0, 1, 0),
            FaceDirections::BOTTOM => (0, -1, 0),
        }
    }

    /// Corner `k` of this side of the unit cube, in the order in which the
    /// corners are emitted.
    pub open spec fn corner(self, k: int) -> [i64; 3] {
        match self {
            FaceDirections::FRONT => if k == 0 {
                [0i64, 1i64, 1i64]
            } else if k == 1 {
                [0i64, 0i64, 1i64]
            } else if k == 2 {
                [1i64, 0i64, 1i64]
            } else {
                [1i64, 1i64, 1i64]
            },
            FaceDirections::BACK => if k == 0 {
                [1i64, 1i64, 0i64]
            } else if k == 1 {
                [1i64, 0i64, 0i64]
            } else if k == 2 {
                [0i64, 0i64, 0i64]
            } else {
                [0i64, 1i64, 0i64]
            },
            FaceDirections::LEFT => if k == 0 {
                [0i64, 1i64, 0i64]
            } else if k == 1 {
                [0i64, 0i64, 0i64]
            } else if k == 2 {
                [0i64, 0i64, 1i64]
            } else {
                [0i64, 1i64, 1i64]
            },
            FaceDirections::RIGHT => if k == 0 {
                [1i64, 1i64, 1i64]
            } else if k == 1 {
                [1i64, 0i64, 1i64]
            } else if k == 2 {
                [1i64, 0i64, 0i64]
            } else {
                [1i64, 1i64, 0i64]
            },
            FaceDirections::TOP => if k == 0 {
                [0i64, 1i64, 0i64]
            } else if k == 1 {
                [0i64, 1i64, 1i64]
            } else if k == 2 {
                [1i64, 1i64, 1i64]
            } else {
                [1i64, 1i64, 0i64]
            },
            FaceDirections::BOTTOM => if k == 0 {
                [0i64, 0i64, 1i64]
            } else if k == 1 {
                [0i64, 0i64, 0i64]
            } else if k == 2 {
                [1i64, 0i64, 0i64]
            } else {
                [1i64, 0i64, 1i64]
            },
        }
    }

    /// Vertex `k` of a face of material `mat` on this side of the unit cube.
    pub open spec fn spec_vert(self, mat: BlockType, k: int) -> BlockVertex {
        BlockVertex {
            position: self.corner(k),
            tex_coords: TextureAtlas::spec_block_texture(mat)[k],
        }
    }

    /// The four vertices of a face of material `mat` on this side of the
    /// unit cube.
    pub open spec fn spec_verts(self, mat: BlockType) -> [BlockVertex; 4] {
        [
            self.spec_vert(mat, 0),
            self.spec_vert(mat, 1),
            self.spec_vert(mat, 2),
            self.spec_vert(mat, 3),
        ]
    }

    /// The four textured vertices of a face of material `mat` on this side
    /// of the unit cube.
    pub fn get_verts(self, mat: BlockType) -> (verts: [BlockVertex; 4])
        ensures
            verts == self.spec_verts(mat),
    {
        let tex_coords = TextureAtlas::get_block_texture_from_type(mat);
        let verts: [BlockVertex; 4] = match self {
            FaceDirections::FRONT => [
                BlockVertex { position: [0, 1, 1], tex_coords: tex_coords[0] },
                BlockVertex { position: [0, 0, 1], tex_coords: tex_coords[1] },
                BlockVertex { position: [1, 0, 1], tex_coords: tex_coords[2] },
                BlockVertex { position: [1, 1, 1], tex_coords: tex_coords[3] },
            ],
            FaceDirections::BACK => [
                BlockVertex { position: [1, 1, 0], tex_coords: tex_coords[0] },
                BlockVertex { position: [1, 0, 0], tex_coords: tex_coords[1] },
                BlockVertex { position: [0, 0, 0], tex_coords: tex_coords[2] },
                BlockVertex { position: [0, 1, 0], tex_coords: tex_coords[3] },
            ],
            FaceDirections::LEFT => [
                BlockVertex { position: [0, 1, 0], tex_coords: tex_coords[0] },
                BlockVertex { position: [0, 0, 0], tex_coords: tex_coords[1] },
                BlockVertex { position: [0, 0, 1], tex_coords: tex_coords[2] },
                BlockVertex { position: [0, 1, 1], tex_coords: tex_coords[3] },
            ],
            FaceDirections::RIGHT => [
                BlockVertex { position: [1, 1, 1], tex_coords: tex_coords[0] },
                BlockVertex { position: [1, 0, 1], tex_coords: tex_coords[1] },
                BlockVertex { position: [1, 0, 0], tex_coords: tex_coords[2] },
                BlockVertex { position: [1, 1, 0], tex_coords: tex_coords[3] },
            ],
            FaceDirections::TOP => [
                BlockVertex { position: [0, 1, 0], tex_coords: tex_coords[0] },
                BlockVertex { position: [0, 1, 1], tex_coords: tex_coords[1] },
                BlockVertex { position: [1, 1, 1], tex_coords: tex_coords[2] },
                BlockVertex { position: [1, 1, 0], tex_coords: tex_coords[3] },
            ],
            FaceDirections::BOTTOM => [
                BlockVertex { position: [0, 0, 1], tex_coords: tex_coords[0] },
                BlockVertex { position: [0, 0, 0], tex_coords: tex_coords[1] },
                BlockVertex { position: [1, 0, 0], tex_coords: tex_coords[2] },
                BlockVertex { position: [1, 0, 1], tex_coords: tex_coords[3] },
            ],
        };
        proof {
            let want = self.spec_verts(mat);
            assert forall|k: int| 0 <= k < 4 implies verts[k] == want[k] by {
                assert(verts[k].position =~= self.corner(k));
            }
            assert(verts =~= want);
        }
        verts
    }

    /// The cross product of the first two edges of this side, taken from the
    /// first corner.
    pub open spec fn winding(self) -> (int, int, int) {
        let o = self.corner(0);
        let p = self.corner(1);
        let q = self.corner(2);
        let (ux, uy, uz) = (p[0] - o[0], p[1] - o[1], p[2] - o[2]);
        let (vx, vy, vz) = (q[0] - o[0], q[1] - o[1], q[2] - o[2]);
        (uy * vz - uz * vy, uz * vx - ux * vz, ux * vy - uy * vx)
    }

    /// Every corner of a side lies on that side of the unit cube, the four
    /// corners differ, and they are emitted counter-clockwise as seen from
    /// outside the block: the cross product of the first two edges is the
    /// outward normal.
    pub proof fn lemma_face_geometry(self)
        ensures
            forall|k: int, a: int|
                0 <= k < 4 && 0 <= a < 3 ==> 0 <= (#[trigger] self.corner(k)[a]) <= 1,
            forall|k: int|
                0 <= k < 4 ==> {
                    let c = #[trigger] self.corner(k);
                    let n = self.normal();
                    &&& n.0 != 0 ==> 2 * c[0] == n.0 + 1
                    &&& n.1 != 0 ==> 2 * c[1] == n.1 + 1
                    &&& n.2 != 0 ==> 2 * c[2] == n.2 + 1
                },
            forall|j: int, k: int|
                0 <= j < k < 4 ==> {
                    let c = #[trigger] self.corner(j);
                    let d = #[trigger] self.corner(k);
                    c[0] != d[0] || c[1] != d[1] || c[2] != d[2]
                },
            self.winding() == self.normal(),
    {
        let o = self.corner(0);
        let p = self.corner(1);
        let q = self.corner(2);
        let (ux, uy, uz) = (p[0] - o[0], p[1] - o[1], p[2] - o[2]);
        let (vx, vy, vz) = (q[0] - o[0], q[1] - o[1], q[2] - o[2]);
        match self {
            FaceDirections::FRONT => {
                assert(ux == 0 && uy == -1 && uz == 0 && vx == 1 && vy == -1 && vz == 0);
            },
            FaceDirections::BACK => {
                assert(ux == 0 && uy == -1 && uz == 0 && vx == -1 && vy == -1 && vz == 0);
            },
            FaceDirections::LEFT => {
                assert(ux == 0 && uy == -1 && uz == 0 && vx == 0 && vy == -1 && vz == 1);
            },
            FaceDirections::RIGHT => {
                assert(ux == 0 && uy == -1 && uz == 0 && vx == 0 && vy == -1 && vz == -1);
            },
            FaceDirections::TOP => {
                assert(ux == 0 && uy == 0 && uz == 1 && vx == 1 && vy == 0 && vz == 1);
            },
            FaceDirections::BOTTOM => {
                assert(ux == 0 && uy == 0 && uz == -1 && vx == 1 && vy == 0 && vz == -1);
            },
        }
        assert(uy * vz - uz * vy == self.normal().0);
        assert(uz * vx - ux * vz == self.normal().1);
        assert(ux * vy - uy * vx == self.normal().2);
    }
}

/// One visible side of a block: its four vertices in local coordinates and the
/// side it is on.
#[derive(Copy, Clone, Debug, PartialEq, Eq)]
pub struct Face {
    pub verts: [BlockVertex; 4],
    pub dir: FaceDirections,
}

impl Face {
    /// The face of a block of material `mat` on side `dir`.
    pub open spec fn spec_new(dir: FaceDirections, mat: BlockType) -> Face {
        Face { verts: dir.spec_verts(mat), dir }
    }

    /// The face of a block of material `mat` on side `dir`.
    pub fn new(dir: FaceDirections, mat: BlockType) -> (face: Face)
        ensures
            face == Self::spec_new(dir, mat),
    {
        Self { verts: dir.get_verts(mat), dir }
    }

    /// The index pattern of the two triangles of a quad.
    pub open spec fn spec_indices() -> Seq<u8> {
        seq![0u8, 1u8, 2u8, 2u8, 3u8, 0u8]
    }

    /// The indices of the two triangles that cover a face, relative to the
    /// face's first vertex.
    pub fn get_indices() -> (indices: [u8; 6])
        ensures
            indices@ == Self::spec_indices(),
    {
        let indices: [u8; 6] = [0, 1, 2, 2, 3, 0];
        assert(indices@ =~= Self::spec_indices());
        indices
    }
}

/// A cell of the world: its material and, for each of the six sides, the face
/// to draw there, if any.
#[derive(Copy, Clone, Debug, PartialEq, Eq)]
pub struct Block {
    pub mat: BlockType,
    pub faces: [Option<Face>; 6],
}

impl Block {
    /// The face in slot `i` of a block of material `mat` whose neighbours are
    /// solid where `close_blocks` says so.
    pub open spec fn spec_face(mat: BlockType, close_blocks: [bool; 6], i: int) -> Option<Face> {
        if mat == AIR || close_blocks[i] {
            None
        } else {
            Some(Face::spec_new(FaceDirections::of_slot(i), mat))
        }
    }

    /// The block of material `mat` whose neighbours are solid where
    /// `close_blocks` says so: air has no faces, any other material has a
    /// face on exactly the sides that no neighbour hides.
    pub open spec fn spec_new(mat: BlockType, close_blocks: [bool; 6]) -> Block {
        Block {
            mat,
            faces: [
                Self::spec_face(mat, close_blocks, 0),
                Self::spec_face(mat, close_blocks, 1),
                Self::spec_face(mat, close_blocks, 2),
                Self::spec_face(mat, close_blocks, 3),
                Self::spec_face(mat, close_blocks, 4),
                Self::spec_face(mat, close_blocks, 5),
            ],
        }
    }

    /// Whether the block has a face in slot `i`.
    pub open spec fn has_face(&self, i: int) -> bool {
        self.faces[i].is_some()
    }

    /// Whether the block has no face at all.
    pub open spec fn faceless(&self) -> bool {
        forall|i: int| 0 <= i < 6 ==> !self.has_face(i)
    }

    /// The sides of the block that carry no face.
    pub open spec fn hidden_sides(&self) -> [bool; 6] {
        [
            !self.has_face(0),
            !self.has_face(1),
            !self.has_face(2),
            !self.has_face(3),
            !self.has_face(4),
            !self.has_face(5),
        ]
    }

    /// A block is well formed when air carries no face and every face it
    /// carries is the face of its material on the side of its slot.
    pub open spec fn wf(&self) -> bool {
        &&& self.mat == AIR ==> self.faceless()
        &&& forall|i: int|
            0 <= i < 6 && self.has_face(i) ==> #[trigger] self.faces[i] == Some(
                Face::spec_new(FaceDirections::of_slot(i), self.mat),
            )
    }

    /// A block of material `mat`. `close_blocks` tells, for the back, front,
    /// left, right, top and bottom side in this order, whether the neighbour
    /// on that side hides the face.
    pub fn new(mat: BlockType, close_blocks: [bool; 6]) -> (block: Block)
        ensures
            block == Self::spec_new(mat, close_blocks),
            block.wf(),
    {
        if mat == AIR {
            let block = Self { mat, faces: [None, None, None, None, None, None] };
            assert(block.faces =~= Self::spec_new(mat, close_blocks).faces);
            return block;
        }
        let directions: [FaceDirections; 6] = [
            FaceDirections::BACK,
            FaceDirections::FRONT,
            FaceDirections::LEFT,
            FaceDirections::RIGHT,
            FaceDirections::TOP,
            FaceDirections::BOTTOM,
        ];
        let mut faces: [Option<Face>; 6] = [None, None, None, None, None, None];
        let mut i: usize = 0;
        while i < 6
            invariant
                i <= 6,
                mat != AIR,
                forall|j: int| 0 <= j < 6 ==> #[trigger] directions[j] == FaceDirections::of_slot(j),
                forall|j: int| 0 <= j < i ==> #[trigger] faces[j] == Self::spec_face(mat, close_blocks, j),
                forall|j: int| i <= j < 6 ==> (#[trigger] faces[j]).is_none(),
            decreases 6 - i,
        {
            if !close_blocks[i] {
                faces[i] = Some(Face::new(directions[i], mat));
            }
            i += 1;
        }
        let block = Self { mat, faces };
        assert(block.faces =~= Self::spec_new(mat, close_blocks).faces);
        block
    }

    /// Whether the block is air.
    pub open spec fn spec_is_air(&self) -> bool {
        self.mat == AIR
    }

    /// Whether the block is air.
    #[verifier::when_used_as_spec(spec_is_air)]
    pub fn is_air(&self) -> (air: bool)
        ensures
            air == (self.mat == AIR),
    {
        self.mat == AIR
    }

    /// Every block that `spec_new` describes is well formed.
    pub proof fn lemma_new_is_wf(mat: BlockType, close_blocks: [bool; 6])
        ensures
            Self::spec_new(mat, close_blocks).wf(),
            Self::spec_new(mat, close_blocks).mat == mat,
            forall|i: int|
                0 <= i < 6 ==> #[trigger] Self::spec_new(mat, close_blocks).has_face(i) == (mat
                    != AIR && !close_blocks[i]),
    {
    }

    /// An air block is the same whatever its neighbours are.
    pub proof fn lemma_air_is_bare(close_blocks: [bool; 6], other: [bool; 6])
        ensures
            Self::spec_new(AIR, close_blocks) == Self::spec_new(AIR, other),
    {
        assert(Self::spec_new(AIR, close_blocks).faces =~= Self::spec_new(AIR, other).faces);
    }

    /// A well-formed air block is the air block that `spec_new` describes.
    pub proof fn lemma_wf_air_is_bare(self, close_blocks: [bool; 6])
        requires
            self.wf(),
            self.mat == AIR,
        ensures
            self == Self::spec_new(AIR, close_blocks),
    {
        assert forall|i: int| 0 <= i < 6 implies self.faces[i] == Self::spec_new(
            AIR,
            close_blocks,
        ).faces[i] by {
            assert(!self.has_face(i));
        }
        assert(self.faces =~= Self::spec_new(AIR, close_blocks).faces);
    }

    /// A well-formed block is fixed by its material and by the sides on
    /// which it carries no face.
    pub proof fn lemma_wf_is_new(self)
        requires
            self.wf(),
        ensures
            self == Self::spec_new(self.mat, self.hidden_sides()),
    {
        let want = Self::spec_new(self.mat, self.hidden_sides());
        assert forall|i: int| 0 <= i < 6 implies self.faces[i] == want.faces[i] by {
            if self.has_face(i) {
                assert(self.faces[i] == Some(Face::spec_new(FaceDirections::of_slot(i), self.mat)));
            }
        }
        assert(self.faces =~= want.faces);
    }

    /// Air never has a face, and a block of any other material has none only
    /// when all six neighbours hide it.
    pub proof fn lemma_air_iff_faceless(mat: BlockType, close_blocks: [bool; 6])
        requires
            exists|i: int| 0 <= i < 6 && !close_blocks[i],
        ensures
            mat == AIR <==> Self::spec_new(mat, close_blocks).faceless(),
    {
        let block = Self::spec_new(mat, close_blocks);
        if mat != AIR {
            let i = choose|i: int| 0 <= i < 6 && !close_blocks[i];
            assert(block.has_face(i));
        }
    }
}

} // verus!
