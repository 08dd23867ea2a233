//! Texture-atlas placement geometry.
//!
//! An atlas is a stack of texture-array slices; each slice holds a square
//! grid of textures, and each texture holds a square grid of tiles.  Given
//! the linear index of the texture that holds a tile cell, [`place`] computes
//! the exact slice and pixel offset at which that tile's pixels must be
//! written.  No other component recomputes this mapping.

use vstd::prelude::*;

verus! {

/// Invalid atlas configuration.
#[derive(Clone, Copy, Debug, PartialEq, Eq, Structural)]
pub enum PlacementError {
    /// A size is out of range or `texture_size` is not a multiple of
    /// `tile_size`.
    InvalidDimensions,
    /// `textures_per_slice` is not a perfect square, so a slice cannot hold
    /// a square grid of textures.
    NonSquareSlice,
}

/// Atlas geometry, read-only after construction.
#[derive(Clone, Copy, Debug)]
pub struct AtlasConfig {
    /// Side of one square tile, in pixels.
    pub tile_size: i32,
    /// Side of one square texture, in pixels; a multiple of `tile_size`.
    pub texture_size: i32,
    /// Number of tiles along one side of a texture:
    /// `texture_size / tile_size`.
    pub tiles_per_side: i32,
    /// Number of textures in one texture-array slice; a perfect square.
    pub textures_per_slice: i32,
    /// Number of textures along one side of a slice:
    /// the exact integer square root of `textures_per_slice`.
    pub textures_per_side_slice: i32,
}

/// The sizes accepted by [`AtlasConfig::new`].  The upper bounds are machine
/// limits keeping every pixel offset comfortably inside `i32`.
pub open spec fn valid_dims(tile_size: int, texture_size: int, textures_per_slice: int) -> bool {
    &&& 1 <= tile_size <= texture_size
    &&& texture_size <= 65536
    &&& texture_size % tile_size == 0
    &&& texture_size <= 1024 * tile_size
    &&& 1 <= textures_per_slice <= 65536
}

/// `n` is a perfect square.
pub open spec fn is_square(n: int) -> bool {
    exists|s: int| 0 <= s && #[trigger] (s * s) == n
}

/// Finds the exact integer square root of `n`, or reports that none exists.
fn exact_root(n: i32) -> (r: i32)
    requires
        1 <= n <= 65536,
    ensures
        r >= 0 ==> r * r == n && 1 <= r <= 256,
        r < 0 ==> !is_square(n as int),
{
    let mut s: i32 = 0;
    let mut root: i32 = -1;
    while root == -1 && s <= 256
        invariant
            0 <= s <= 257,
            1 <= n <= 65536,
            root == -1 || (0 <= root <= 256 && root * root == n),
            root == -1 ==> forall|j: int| 0 <= j < s ==> #[trigger] (j * j) != n,
        decreases 257 - s + (if root == -1 { 1int } else { 0int }),
    {
        proof {
            assert(s * s <= 65536) by (nonlinear_arith)
                requires 0 <= s <= 256;
        }
        if s * s == n {
            root = s;
        } else {
            s = s + 1;
        }
    }
    if root >= 0 {
        proof {
            assert(root >= 1) by (nonlinear_arith)
                requires root * root >= 1, root >= 0;
        }
    } else {
        assert(!is_square(n as int)) by {
            assert forall|t: int| 0 <= t implies #[trigger] (t * t) != n as int by {
                if t >= 257 {
                    assert(t * t >= 257 * 257) by (nonlinear_arith)
                        requires t >= 257;
                }
            }
        }
    }
    root
}

impl AtlasConfig {
    /// Internal consistency of a constructed configuration.
    pub open spec fn wf(self) -> bool {
        &&& valid_dims(self.tile_size as int, self.texture_size as int,
                self.textures_per_slice as int)
        &&& self.tiles_per_side == self.texture_size as int / self.tile_size as int
        &&& 1 <= self.tiles_per_side <= 1024
        &&& self.texture_size == self.tiles_per_side * self.tile_size
        &&& 1 <= self.textures_per_side_slice <= 256
        &&& self.textures_per_slice
            == self.textures_per_side_slice * self.textures_per_side_slice
    }

    /// Builds a configuration, rejecting dimensions that break the atlas
    /// invariants: `texture_size` must be a multiple of `tile_size` within
    /// range, and `textures_per_slice` must be a perfect square.
    pub fn new(tile_size: i32, texture_size: i32, textures_per_slice: i32)
        -> (r: Result<AtlasConfig, PlacementError>)
        ensures
            r is Ok <==> valid_dims(tile_size as int, texture_size as int,
                textures_per_slice as int) && is_square(textures_per_slice as int),
            r matches Ok(c) ==> {
                &&& c.wf()
                &&& c.tile_size == tile_size
                &&& c.texture_size == texture_size
                &&& c.textures_per_slice == textures_per_slice
            },
            r matches Err(e) ==> if valid_dims(tile_size as int, texture_size as int,
                    textures_per_slice as int) {
                e == PlacementError::NonSquareSlice
            } else {
                e == PlacementError::InvalidDimensions
            },
    {
        if !(1 <= tile_size && tile_size <= texture_size && texture_size <= 65536
            && texture_size % tile_size == 0
            && texture_size <= 1024 * tile_size
            && 1 <= textures_per_slice && textures_per_slice <= 65536)
        {
            return Err(PlacementError::InvalidDimensions);
        }
        let root = exact_root(textures_per_slice);
        if root < 0 {
            return Err(PlacementError::NonSquareSlice);
        }
        proof {
            assert((root as int) * (root as int) == textures_per_slice as int);
            assert(is_square(textures_per_slice as int));
        }
        let tiles_per_side = texture_size / tile_size;
        proof {
            vstd::arithmetic::div_mod::lemma_fundamental_div_mod(
                texture_size as int, tile_size as int);
            assert(tiles_per_side as int == texture_size as int / tile_size as int);
            assert(texture_size as int % tile_size as int == 0);
            assert(texture_size as int
                == tile_size as int * (texture_size as int / tile_size as int));
            assert(texture_size as int == tiles_per_side as int * tile_size as int)
                by (nonlinear_arith)
                requires
                    texture_size as int
                        == tile_size as int * (texture_size as int / tile_size as int),
                    tiles_per_side as int == texture_size as int / tile_size as int;
            assert(texture_size as int / tile_size as int >= 1) by (nonlinear_arith)
                requires
                    1 <= tile_size <= texture_size,
                    texture_size % tile_size == 0,
                    texture_size == tile_size * (texture_size as int / tile_size as int)
                        + texture_size % tile_size;
            assert(texture_size as int / tile_size as int <= 1024) by (nonlinear_arith)
                requires
                    1 <= tile_size,
                    texture_size <= 1024 * tile_size,
                    texture_size % tile_size == 0,
                    texture_size == tile_size * (texture_size as int / tile_size as int)
                        + texture_size % tile_size;
        }
        Ok(AtlasConfig {
            tile_size,
            texture_size,
            tiles_per_side,
            textures_per_slice,
            textures_per_side_slice: root,
        })
    }
}

/// A quadtree-like spatial cell identifier at a given depth.  Which texture
/// holds the cell is the caller's spatial index's business; where the cell
/// sits *inside* its texture is fixed by the cell index alone.
#[derive(Clone, Copy, Debug, PartialEq, Eq, Hash, Structural)]
pub struct TileCell {
    /// Subdivision depth of the cell.
    pub depth: u8,
    /// Linear index of the cell within its depth.
    pub idx: u64,
}

/// Column of `cell` inside its texture.
pub open spec fn spec_cell_col(cell: TileCell, cfg: AtlasConfig) -> int {
    (cell.idx as int % (cfg.tiles_per_side * cfg.tiles_per_side)) / (cfg.tiles_per_side as int)
}

/// Row of `cell` inside its texture.
pub open spec fn spec_cell_row(cell: TileCell, cfg: AtlasConfig) -> int {
    (cell.idx as int % (cfg.tiles_per_side * cfg.tiles_per_side)) % (cfg.tiles_per_side as int)
}

impl TileCell {
    /// (column, row) of this cell's tile within the square tile grid of the
    /// texture that holds it.
    pub fn offset_in_texture(&self, cfg: &AtlasConfig) -> (r: (i32, i32))
        requires
            cfg.wf(),
        ensures
            r.0 as int == spec_cell_col(*self, *cfg),
            r.1 as int == spec_cell_row(*self, *cfg),
            0 <= r.0 < cfg.tiles_per_side,
            0 <= r.1 < cfg.tiles_per_side,
    {
        let tps = cfg.tiles_per_side as u64;
        proof {
            assert(1 <= tps * tps <= 1024 * 1024) by (nonlinear_arith)
                requires 1 <= tps <= 1024;
        }
        let in_tex = self.idx % (tps * tps);
        let col = in_tex / tps;
        let row = in_tex % tps;
        proof {
            assert(in_tex < tps * tps);
            assert((in_tex as int) / (tps as int) < tps as int) by (nonlinear_arith)
                requires in_tex < tps * tps, tps >= 1;
        }
        (col as i32, row as i32)
    }
}

/// Slice of the texture with linear index `texture_idx`.
pub open spec fn spec_slice(cfg: AtlasConfig, texture_idx: int) -> int {
    texture_idx / (cfg.textures_per_slice as int)
}

/// Pixel x offset (row direction) of a tile, from the texture's row within
/// its slice and the tile's row within its texture.
pub open spec fn spec_x(cfg: AtlasConfig, texture_idx: int, row_in_tex: int) -> int {
    (texture_idx % (cfg.textures_per_slice as int)) % (cfg.textures_per_side_slice as int)
        * cfg.texture_size + row_in_tex * cfg.tile_size
}

/// Pixel y offset (column direction) of a tile, from the texture's column
/// within its slice and the tile's column within its texture.
pub open spec fn spec_y(cfg: AtlasConfig, texture_idx: int, col_in_tex: int) -> int {
    (texture_idx % (cfg.textures_per_slice as int)) / (cfg.textures_per_side_slice as int)
        * cfg.texture_size + col_in_tex * cfg.tile_size
}

/// Computes the texture-array slice and the pixel offset at which the tile
/// for `cell` must be written, given the linear index of the texture that
/// holds it.  This triple is exactly what the GPU-upload collaborator
/// receives.
pub fn place(cell: &TileCell, texture_idx: i32, cfg: &AtlasConfig) -> (r: (i32, i32, i32))
    requires
        cfg.wf(),
        0 <= texture_idx,
    ensures
        r.0 as int == spec_slice(*cfg, texture_idx as int),
        r.1 as int == spec_x(*cfg, texture_idx as int, spec_cell_row(*cell, *cfg)),
        r.2 as int == spec_y(*cfg, texture_idx as int, spec_cell_col(*cell, *cfg)),
        0 <= r.1 && r.1 + cfg.tile_size <= cfg.textures_per_side_slice * cfg.texture_size,
        0 <= r.2 && r.2 + cfg.tile_size <= cfg.textures_per_side_slice * cfg.texture_size,
{
    let (col_in_tex, row_in_tex) = cell.offset_in_texture(cfg);
    let slice = texture_idx / cfg.textures_per_slice;
    let in_slice = texture_idx % cfg.textures_per_slice;
    let col_in_slice = in_slice / cfg.textures_per_side_slice;
    let row_in_slice = in_slice % cfg.textures_per_side_slice;
    proof {
        assert(0 <= col_in_slice < cfg.textures_per_side_slice) by (nonlinear_arith)
            requires
                0 <= in_slice,
                in_slice < cfg.textures_per_side_slice * cfg.textures_per_side_slice,
                col_in_slice == in_slice as int / cfg.textures_per_side_slice as int,
                cfg.textures_per_side_slice >= 1;
        lemma_grid_offset_bounds(cfg.textures_per_side_slice as int,
            cfg.texture_size as int, row_in_slice as int,
            cfg.tiles_per_side as int, cfg.tile_size as int, row_in_tex as int);
        lemma_grid_offset_bounds(cfg.textures_per_side_slice as int,
            cfg.texture_size as int, col_in_slice as int,
            cfg.tiles_per_side as int, cfg.tile_size as int, col_in_tex as int);
        assert(cfg.textures_per_side_slice * cfg.texture_size <= 256 * 65536)
            by (nonlinear_arith)
            requires
                1 <= cfg.textures_per_side_slice <= 256,
                1 <= cfg.texture_size <= 65536;
    }
    let x = row_in_slice * cfg.texture_size + row_in_tex * cfg.tile_size;
    let y = col_in_slice * cfg.texture_size + col_in_tex * cfg.tile_size;
    (slice, x, y)
}

/// Placement is injective: two tiles that differ in texture index or in
/// their offset within the texture never map to overlapping
/// `(slice, x, y, tile_size)` rectangles.
pub proof fn lemma_place_injective(
    cfg: AtlasConfig,
    t1: int, col1: int, row1: int,
    t2: int, col2: int, row2: int,
)
    requires
        cfg.wf(),
        0 <= t1,
        0 <= t2,
        0 <= col1 < cfg.tiles_per_side,
        0 <= row1 < cfg.tiles_per_side,
        0 <= col2 < cfg.tiles_per_side,
        0 <= row2 < cfg.tiles_per_side,
        t1 != t2 || col1 != col2 || row1 != row2,
    ensures
        spec_slice(cfg, t1) != spec_slice(cfg, t2)
            || spec_x(cfg, t1, row1) + cfg.tile_size <= spec_x(cfg, t2, row2)
            || spec_x(cfg, t2, row2) + cfg.tile_size <= spec_x(cfg, t1, row1)
            || spec_y(cfg, t1, col1) + cfg.tile_size <= spec_y(cfg, t2, col2)
            || spec_y(cfg, t2, col2) + cfg.tile_size <= spec_y(cfg, t1, col1),
{
    let p = cfg.textures_per_slice as int;
    let ss = cfg.textures_per_side_slice as int;
    let tex = cfg.texture_size as int;
    let tile = cfg.tile_size as int;
    let n = cfg.tiles_per_side as int;
    if spec_slice(cfg, t1) == spec_slice(cfg, t2) {
        vstd::arithmetic::div_mod::lemma_fundamental_div_mod(t1, p);
        vstd::arithmetic::div_mod::lemma_fundamental_div_mod(t2, p);
        vstd::arithmetic::div_mod::lemma_mod_division_less_than_divisor(t1, p);
        vstd::arithmetic::div_mod::lemma_mod_division_less_than_divisor(t2, p);
        let m1 = t1 % p;
        let m2 = t2 % p;
        vstd::arithmetic::div_mod::lemma_fundamental_div_mod(m1, ss);
        vstd::arithmetic::div_mod::lemma_fundamental_div_mod(m2, ss);
        vstd::arithmetic::div_mod::lemma_mod_division_less_than_divisor(m1, ss);
        vstd::arithmetic::div_mod::lemma_mod_division_less_than_divisor(m2, ss);
        assert(0 <= m1 / ss < ss && 0 <= m2 / ss < ss) by (nonlinear_arith)
            requires
                0 <= m1 < ss * ss, 0 <= m2 < ss * ss, ss >= 1,
                m1 == ss * (m1 / ss) + m1 % ss, m2 == ss * (m2 / ss) + m2 % ss,
                0 <= m1 % ss < ss, 0 <= m2 % ss < ss;
        if t1 == t2 {
            // Same texture: the offsets inside it differ.
            if row1 != row2 {
                lemma_axis_disjoint(tex, tile, n, m1 % ss, row1, m2 % ss, row2);
            } else {
                lemma_axis_disjoint(tex, tile, n, m1 / ss, col1, m2 / ss, col2);
            }
        } else {
            // Same slice, different texture: the texture positions differ.
            assert(m1 != m2);
            if m1 % ss != m2 % ss {
                lemma_axis_disjoint(tex, tile, n, m1 % ss, row1, m2 % ss, row2);
            } else {
                assert(m1 / ss != m2 / ss);
                lemma_axis_disjoint(tex, tile, n, m1 / ss, col1, m2 / ss, col2);
            }
        }
    }
}

/// Two tile rectangles on one axis are disjoint whenever their
/// (outer band, inner position) pairs differ.
proof fn lemma_axis_disjoint(tex: int, tile: int, n: int, a1: int, b1: int, a2: int, b2: int)
    requires
        1 <= tile,
        1 <= n,
        tex == n * tile,
        0 <= b1 < n,
        0 <= b2 < n,
        0 <= a1,
        0 <= a2,
        a1 != a2 || b1 != b2,
    ensures
        a1 * tex + b1 * tile + tile <= a2 * tex + b2 * tile
            || a2 * tex + b2 * tile + tile <= a1 * tex + b1 * tile,
{
    if a1 == a2 {
        if b1 < b2 {
            assert(b1 * tile + tile <= b2 * tile) by (nonlinear_arith)
                requires b1 < b2, 1 <= tile;
        } else {
            assert(b2 * tile + tile <= b1 * tile) by (nonlinear_arith)
                requires b2 < b1, 1 <= tile;
        }
    } else if a1 < a2 {
        assert(a1 * tex + b1 * tile + tile <= a2 * tex + b2 * tile) by (nonlinear_arith)
            requires a1 < a2, 0 <= b1 < n, 0 <= b2, 1 <= tile, tex == n * tile;
    } else {
        assert(a2 * tex + b2 * tile + tile <= a1 * tex + b1 * tile) by (nonlinear_arith)
            requires a2 < a1, 0 <= b2 < n, 0 <= b1, 1 <= tile, tex == n * tile;
    }
}

/// A tile at grid position `inner` inside outer band `outer` starts at
/// `outer * outer_size + inner * inner_size` and its `inner_size` pixels stay
/// inside the outer band, which itself stays inside the slice.
proof fn lemma_grid_offset_bounds(
    n_outer: int, outer_size: int, outer: int,
    n_inner: int, inner_size: int, inner: int,
)
    requires
        1 <= inner_size,
        1 <= n_inner,
        outer_size == n_inner * inner_size,
        0 <= outer < n_outer,
        0 <= inner < n_inner,
    ensures
        0 <= outer * outer_size + inner * inner_size,
        outer * outer_size + inner * inner_size + inner_size <= (outer + 1) * outer_size,
        (outer + 1) * outer_size <= n_outer * outer_size,
{
    assert(0 < outer_size) by (nonlinear_arith)
        requires 1 <= n_inner, 1 <= inner_size, outer_size == n_inner * inner_size;
    assert(0 <= outer * outer_size && 0 <= inner * inner_size) by (nonlinear_arith)
        requires 0 <= outer, 0 <= inner, 1 <= inner_size, 0 < outer_size;
    assert(inner * inner_size + inner_size <= outer_size) by (nonlinear_arith)
        requires 0 <= inner < n_inner, 1 <= inner_size, outer_size == n_inner * inner_size;
    assert((outer + 1) * outer_size == outer * outer_size + outer_size) by (nonlinear_arith);
    assert((outer + 1) * outer_size <= n_outer * outer_size) by (nonlinear_arith)
        requires outer + 1 <= n_outer, 0 < outer_size;
}

} // verus!
