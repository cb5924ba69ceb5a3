use vstd::prelude::*;

verus! {

/// Number of tiles in one row of the atlas.
pub const TEXTURE_ATLAS_X_SIZE: u32 = 16;

/// Number of tile rows in the atlas.
pub const TEXTURE_ATLAS_Y_SIZE: u32 = 16;

/// Layout of the texture atlas: a grid of square tiles, one per material,
/// numbered row by row.
///
/// Texture coordinates are counted in tiles. A renderer scales them by the
/// reciprocal of the atlas size to obtain coordinates in the unit square.
pub struct TextureAtlas {}

impl TextureAtlas {
    /// Column of the tile of `mat`.
    pub open spec fn tile_x(mat: u32) -> int {
        mat as int % 16
    }

    /// Row of the tile of `mat`.
    pub open spec fn tile_y(mat: u32) -> int {
        mat as int / 16
    }

    /// The four corners of the tile of `mat`: lower left, lower right,
    /// upper right, upper left.
    pub open spec fn spec_block_texture(mat: u32) -> [[u32; 2]; 4] {
        let x = Self::tile_x(mat);
        let y = Self::tile_y(mat);
        [
            [x as u32, y as u32],
            [(x + 1) as u32, y as u32],
            [(x + 1) as u32, (y + 1) as u32],
            [x as u32, (y + 1) as u32],
        ]
    }

    /// Texture coordinates of the four corners of a face of material `mat`.
    pub fn get_block_texture_from_type(mat: u32) -> (tex: [[u32; 2]; 4])
        ensures
            tex == Self::spec_block_texture(mat),
    {
        let x: u32 = mat % TEXTURE_ATLAS_X_SIZE;
        let y: u32 = mat / TEXTURE_ATLAS_X_SIZE;
        let tex: [[u32; 2]; 4] = [[x, y], [x + 1, y], [x + 1, y + 1], [x, y + 1]];
        proof {
            let want = Self::spec_block_texture(mat);
            assert(tex[0] =~= want[0]);
            assert(tex[1] =~= want[1]);
            assert(tex[2] =~= want[2]);
            assert(tex[3] =~= want[3]);
            assert(tex =~= want);
        }
        tex
    }

    /// The tile of a material spans one tile in each direction and starts
    /// inside the first sixteen columns.
    pub proof fn lemma_tile_is_unit_square(mat: u32)
        ensures
            0 <= Self::tile_x(mat) < 16,
            0 <= Self::tile_y(mat) < 0x1000_0000,
            Self::spec_block_texture(mat)[0][0] == Self::tile_x(mat),
            Self::spec_block_texture(mat)[0][1] == Self::tile_y(mat),
            Self::spec_block_texture(mat)[2][0] == Self::tile_x(mat) + 1,
            Self::spec_block_texture(mat)[2][1] == Self::tile_y(mat) + 1,
            Self::spec_block_texture(mat)[1][0] == Self::spec_block_texture(mat)[2][0],
            Self::spec_block_texture(mat)[1][1] == Self::spec_block_texture(mat)[0][1],
            Self::spec_block_texture(mat)[3][0] == Self::spec_block_texture(mat)[0][0],
            Self::spec_block_texture(mat)[3][1] == Self::spec_block_texture(mat)[2][1],
    {
    }
}

} // verus!
