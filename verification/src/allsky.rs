//! All-sky mosaic decomposition.
//!
//! An all-sky image packs low-resolution sub-tiles in a fixed 27 × 29 grid,
//! one sub-tile per slot in raster order.  [`decompose`] redistributes those
//! sub-tiles into the `12 * (texture_size / tile_size)^2` base tiles of the
//! atlas; inside each tile the sub-tiles are laid out along the morton curve
//! of [`crate::morton`].  [`decompose_fits`] is the variant for numeric
//! rasters, whose wire row order is reversed and whose tiles are mirrored
//! once more for the GPU sampling convention: the two reversals are separate,
//! sequential corrections and are kept so.

use vstd::prelude::*;
use vstd::arithmetic::power2::pow2;
use crate::image::ImageBuffer;
use crate::morton::spec_mort;

verus! {

/// Side of the sub-tiles packed in an all-sky mosaic for tiles of side
/// `tile_size`: the tile side itself, capped at 64 pixels.
pub open spec fn spec_allsky_tile_size(tile_size: int) -> int {
    if tile_size < 64 { tile_size } else { 64 }
}

/// The mosaic slot consumed by pixel `(x, y)` of tile `n`: tiles consume
/// `subs` slots each, in morton order of the sub-tile position.
pub open spec fn spec_tile_slot(n: int, x: int, y: int, ats: int, subs: int) -> int {
    n * subs + spec_mort((y / ats) as nat, (x / ats) as nat)
}

/// The sizes [`decompose`] accepts.  They keep every sequential mosaic read
/// inside the 27 × 29 slot grid and every buffer inside the machine limits
/// of [`ImageBuffer`].
pub open spec fn decompose_dims_ok(ats: int, tile_size: int, texture_size: int) -> bool {
    &&& 1 <= ats <= tile_size <= 16384
    &&& tile_size % ats == 0
    &&& (exists|mm: nat| tile_size / ats == #[trigger] pow2(mm))
    &&& tile_size <= texture_size
    &&& texture_size % tile_size == 0
    &&& 12 * (texture_size / tile_size) * (texture_size / tile_size)
        * ((tile_size / ats) * (tile_size / ats)) <= 27 * 29
}

/// What [`decompose`] returns: tile `n`'s pixel `(x, y)` is the pixel of the
/// mosaic slot `spec_tile_slot(n, x, y, ..)` at the same offset within the
/// sub-tile.
pub open spec fn decomposed<T: Copy>(
    tiles: Seq<ImageBuffer<T>>, mosaic: ImageBuffer<T>,
    ats: int, tile_size: int, texture_size: int,
) -> bool {
    let ratio = tile_size / ats;
    let subs = ratio * ratio;
    let num = 12 * (texture_size / tile_size) * (texture_size / tile_size);
    &&& tiles.len() == num
    &&& forall|n: int| 0 <= n < num ==> {
        &&& (#[trigger] tiles[n]).wf()
        &&& tiles[n].width == tile_size
        &&& tiles[n].height == tile_size
        &&& tiles[n].channels == mosaic.channels
    }
    &&& forall|n: int, x: int, y: int, c: int|
        0 <= n < num && 0 <= x < tile_size && 0 <= y < tile_size
            && 0 <= c < mosaic.channels
            && spec_mort((y / ats) as nat, (x / ats) as nat) < subs
            ==> #[trigger] tiles[n].pix(x, y, c) == mosaic.pix(
                (spec_tile_slot(n, x, y, ats, subs) % 27) * ats + x % ats,
                (spec_tile_slot(n, x, y, ats, subs) / 27) * ats + y % ats,
                c)
}

/// Decomposes one all-sky mosaic into the base tiles of the atlas.  Sub-tile
/// slots are consumed sequentially in mosaic raster order; inside a tile each
/// consumed sub-tile lands at its morton position.  The contract pins every
/// pixel of every output tile to its mosaic pixel.
#[verifier::rlimit(50)]
pub fn decompose<T: Copy>(
    mosaic: &ImageBuffer<T>,
    fill: &Vec<T>,
    sub_tile_size: i32,
    texture_size: i32,
    tile_size: i32,
) -> (r: Vec<ImageBuffer<T>>)
    requires
        mosaic.wf(),
        fill@.len() == mosaic.channels,
        decompose_dims_ok(sub_tile_size as int, tile_size as int, texture_size as int),
        mosaic.width == 27 * sub_tile_size,
        mosaic.height == 29 * sub_tile_size,
    ensures
        decomposed(r@, *mosaic, sub_tile_size as int, tile_size as int, texture_size as int),
{
    let ats = sub_tile_size;
    let ratio = tile_size / ats;
    let tpt = texture_size / tile_size;
    let ghost m: nat = choose|mm: nat| ratio as int == pow2(mm);
    proof {
        vstd::arithmetic::div_mod::lemma_fundamental_div_mod(tile_size as int, ats as int);
        vstd::arithmetic::div_mod::lemma_fundamental_div_mod(texture_size as int, tile_size as int);
        assert(1 <= ratio as int && ratio as int <= tile_size as int && tile_size == ratio * ats)
            by (nonlinear_arith)
            requires
                1 <= ats <= tile_size,
                tile_size % ats == 0,
                tile_size == ats * (tile_size as int / ats as int) + tile_size % ats,
                ratio == tile_size as int / ats as int;
        assert(1 <= tpt as int && texture_size == tpt * tile_size) by (nonlinear_arith)
            requires
                1 <= tile_size <= texture_size,
                texture_size % tile_size == 0,
                texture_size == tile_size * (texture_size as int / tile_size as int)
                    + texture_size % tile_size,
                tpt == texture_size as int / tile_size as int;
        assert(ratio as int * ratio as int <= 27 * 29
            && 12 * (tpt as int) <= 27 * 29
            && 12 * (tpt as int) * (tpt as int) <= 27 * 29
            && 12 * (tpt as int) * (tpt as int) >= 12
            && (12 * (tpt as int) * (tpt as int)) * (ratio as int * ratio as int)
                <= 27 * 29)
            by (nonlinear_arith)
            requires
                1 <= ratio, 1 <= tpt,
                12 * (tpt as int) * (tpt as int)
                    * ((ratio as int) * (ratio as int)) <= 27 * 29;
    }
    let subs = ratio * ratio;
    let num_tiles = 12 * tpt * tpt;
    let mut tiles: Vec<ImageBuffer<T>> = Vec::new();
    let mut n: i32 = 0;
    while n < num_tiles
        invariant
            0 <= n <= num_tiles,
            tiles@.len() == n,
            mosaic.wf(),
            fill@.len() == mosaic.channels,
            1 <= ats <= tile_size <= 16384,
            ratio == tile_size as int / ats as int,
            tile_size == ratio * ats,
            1 <= ratio,
            subs == ratio * ratio,
            ratio as int == pow2(m),
            num_tiles == 12 * (texture_size as int / tile_size as int)
                * (texture_size as int / tile_size as int),
            num_tiles >= 12,
            num_tiles as int * subs as int <= 27 * 29,
            mosaic.width == 27 * ats,
            mosaic.height == 29 * ats,
            forall|j: int| 0 <= j < n ==> {
                &&& (#[trigger] tiles@[j]).wf()
                &&& tiles@[j].width == tile_size
                &&& tiles@[j].height == tile_size
                &&& tiles@[j].channels == mosaic.channels
            },
            forall|j: int, x: int, y: int, c: int|
                0 <= j < n && 0 <= x < tile_size && 0 <= y < tile_size
                    && 0 <= c < mosaic.channels
                    && spec_mort((y / ats as int) as nat, (x / ats as int) as nat) < subs
                    ==> #[trigger] tiles@[j].pix(x, y, c) == mosaic.pix(
                        (spec_tile_slot(j, x, y, ats as int, subs as int) % 27) * ats
                            + x % ats as int,
                        (spec_tile_slot(j, x, y, ats as int, subs as int) / 27) * ats
                            + y % ats as int,
                        c),
        decreases num_tiles - n,
    {
        let mut tile = ImageBuffer::<T>::allocate(fill, tile_size, tile_size);
        let mut k: i32 = 0;
        while k < subs
            invariant
                0 <= k <= subs,
                mosaic.wf(),
                fill@.len() == mosaic.channels,
                tile.wf(),
                tile.width == tile_size,
                tile.height == tile_size,
                tile.channels == mosaic.channels,
                1 <= ats <= tile_size <= 16384,
                tile_size == ratio * ats,
                1 <= ratio,
                subs == ratio * ratio,
                ratio as int == pow2(m),
                0 <= n < num_tiles,
                num_tiles as int * subs as int <= 27 * 29,
                mosaic.width == 27 * ats,
                mosaic.height == 29 * ats,
                forall|x: int, y: int, c: int|
                    0 <= x < tile_size && 0 <= y < tile_size && 0 <= c < mosaic.channels
                        && spec_mort((y / ats as int) as nat, (x / ats as int) as nat) < k
                        ==> #[trigger] tile.pix(x, y, c) == mosaic.pix(
                            (spec_tile_slot(n as int, x, y, ats as int, subs as int) % 27)
                                * ats + x % ats as int,
                            (spec_tile_slot(n as int, x, y, ats as int, subs as int) / 27)
                                * ats + y % ats as int,
                            c),
            decreases subs - k,
        {
            let (mxu, myu) = crate::morton::unmortonize(k as u64);
            proof {
                // Both morton components stay below `ratio`.
                if mxu as nat >= pow2(m) || myu as nat >= pow2(m) {
                    crate::morton::lemma_mort_lower(mxu as nat, myu as nat, m);
                    assert(pow2(m) * pow2(m) == subs as int) by (nonlinear_arith)
                        requires pow2(m) == ratio as int, subs == ratio * ratio;
                }
                assert((mxu as int) < ratio as int && (myu as int) < ratio as int);
            }
            let mx = mxu as i32;
            let my = myu as i32;
            proof {
                assert(0 <= n as int * subs as int
                    && n as int * subs as int + k < num_tiles as int * subs as int)
                    by (nonlinear_arith)
                    requires 0 <= n, n < num_tiles, 0 <= k < subs, subs >= 1;
            }
            let slot = n * subs + k;
            proof {
                vstd::arithmetic::div_mod::lemma_mod_division_less_than_divisor(
                    slot as int, 27);
                vstd::arithmetic::div_mod::lemma_div_pos_is_pos(slot as int, 27);
                vstd::arithmetic::div_mod::lemma_multiply_divide_lt(slot as int, 27, 29);
                assert((slot as int % 27) * ats + ats <= 27 * ats) by (nonlinear_arith)
                    requires 0 <= slot as int % 27, (slot as int % 27) < 27, 1 <= ats;
                assert(0 <= (slot as int % 27) * ats && 0 <= (slot as int / 27) * ats)
                    by (nonlinear_arith)
                    requires 0 <= slot as int % 27, 0 <= slot as int / 27, 1 <= ats;
                assert((slot as int / 27) * ats + ats <= 29 * ats) by (nonlinear_arith)
                    requires 0 <= slot as int / 27, (slot as int / 27) < 29, 1 <= ats;
                assert(mx as int * ats + ats <= ratio * ats
                    && my as int * ats + ats <= ratio * ats
                    && 0 <= mx as int * ats && 0 <= my as int * ats) by (nonlinear_arith)
                    requires 0 <= mx as int && (mx as int) < ratio, 0 <= my as int && (my as int) < ratio, 1 <= ats;
            }
            let sx = (slot % 27) * ats;
            let sy = (slot / 27) * ats;
            let dx = my * ats;
            let dy = mx * ats;
            let ghost before = tile;
            tile.tex_sub(mosaic, sx, sy, ats, ats, dx, dy, ats, ats);
            proof {
                let atsi = ats as int;
                assert forall|x: int, y: int, c: int|
                    0 <= x < tile_size && 0 <= y < tile_size && 0 <= c < mosaic.channels
                        && spec_mort((y / atsi) as nat, (x / atsi) as nat) < k + 1
                        implies #[trigger] tile.pix(x, y, c) == mosaic.pix(
                            (spec_tile_slot(n as int, x, y, atsi, subs as int) % 27)
                                * ats + x % atsi,
                            (spec_tile_slot(n as int, x, y, atsi, subs as int) / 27)
                                * ats + y % atsi,
                            c) by {
                    let u = y / atsi;
                    let v = x / atsi;
                    vstd::arithmetic::div_mod::lemma_fundamental_div_mod(y, atsi);
                    vstd::arithmetic::div_mod::lemma_fundamental_div_mod(x, atsi);
                    vstd::arithmetic::div_mod::lemma_mod_division_less_than_divisor(y, atsi);
                    vstd::arithmetic::div_mod::lemma_mod_division_less_than_divisor(x, atsi);
                    vstd::arithmetic::div_mod::lemma_div_pos_is_pos(y, atsi);
                    vstd::arithmetic::div_mod::lemma_div_pos_is_pos(x, atsi);
                    let kk = spec_mort(u as nat, v as nat);
                    assert(spec_tile_slot(n as int, x, y, atsi, subs as int)
                        == n as int * subs as int + kk);
                    if kk == k as int {
                        // This pixel lies in the rectangle just written.
                        crate::morton::lemma_mort_injective(
                            u as nat, v as nat, mx as nat, my as nat);
                        assert(u == mx as int && v == my as int);
                        assert(dx as int == (my as int) * (ats as int));
                        assert(x == atsi * (x / atsi) + x % atsi);
                        assert(v * atsi == dx as int);
                        assert(x - dx == x % atsi);
                        assert(dy as int == (mx as int) * (ats as int));
                        assert(y == atsi * (y / atsi) + y % atsi);
                        assert(u * atsi == dy as int);
                        assert(y - dy == y % atsi);
                        assert(0 <= x - dx && x - dx < ats && 0 <= y - dy && y - dy < ats);
                        assert(tile.pix(dx + (x - dx), dy + (y - dy), c)
                            == mosaic.pix(sx + (x - dx), sy + (y - dy), c));
                        assert(dx + (x - dx) == x && dy + (y - dy) == y);
                        assert(spec_tile_slot(n as int, x, y, atsi, subs as int)
                            == slot as int);
                    } else {
                        // An earlier rectangle: the one just written misses it.
                        assert(kk < k as int);
                        if dx <= x < dx + ats && dy <= y < dy + ats {
                            vstd::arithmetic::div_mod::lemma_fundamental_div_mod_converse(
                                x, atsi, my as int, x - dx);
                            vstd::arithmetic::div_mod::lemma_fundamental_div_mod_converse(
                                y, atsi, mx as int, y - dy);
                            assert(u == mx as int && v == my as int);
                            assert(false);
                        }
                        assert(tile.pix(x, y, c) == before.pix(x, y, c));
                    }
                }
            }
            k = k + 1;
        }
        tiles.push(tile);
        n = n + 1;
    }
    tiles
}

/// Flat source index for row reversal: channel item `i` of the reversed
/// buffer comes from the same column and channel on the mirrored row.
pub open spec fn rev_src(i: int, w: int, h: int, ch: int) -> int {
    let c = i % ch;
    let p = i / ch;
    let x = p % w;
    let y = p / w;
    ((h - 1 - y) * w + x) * ch + c
}

/// Reverses the row order of a buffer: row `y` of the result is row
/// `height - 1 - y` of the input.  This is the correction for wire formats
/// whose native row order is reversed and, applied per tile, the mirror
/// that the GPU sampling convention asks of numeric-raster tiles.
pub fn reverse_rows<T: Copy>(img: &ImageBuffer<T>) -> (r: ImageBuffer<T>)
    requires
        img.wf(),
    ensures
        r.wf(),
        r.width == img.width,
        r.height == img.height,
        r.channels == img.channels,
        forall|x: int, y: int, c: int|
            0 <= x < img.width && 0 <= y < img.height && 0 <= c < img.channels
                ==> #[trigger] r.pix(x, y, c) == img.pix(x, img.height - 1 - y, c),
{
    let w = img.width() as usize;
    let h = img.height() as usize;
    let ch = img.channels_count();
    proof {
        assert(w * h <= 16384 * 16384 && (w * h) * ch == w * h * ch
            && w * h * ch <= 16384 * 16384 * 4) by (nonlinear_arith)
            requires 0 <= w <= 16384, 0 <= h <= 16384, 1 <= ch <= 4;
    }
    let total = w * h * ch;
    let mut data: Vec<T> = Vec::new();
    let mut i: usize = 0;
    while i < total
        invariant
            0 <= i <= total,
            img.wf(),
            w == img.width,
            h == img.height,
            ch == img.channels,
            total == w * h * ch,
            data@.len() == i,
            forall|j: int| 0 <= j < i
                ==> #[trigger] data@[j]
                    == img.view()[rev_src(j, w as int, h as int, ch as int)],
        decreases total - i,
    {
        proof {
            assert((ch * (w * h)) == total && (w * h) * ch == total && w >= 1 && h >= 1)
                by (nonlinear_arith)
                requires total == w * h * ch, i < total, 0 <= i, 0 <= w, 0 <= h, ch >= 1;
            vstd::arithmetic::div_mod::lemma_fundamental_div_mod(i as int, ch as int);
            vstd::arithmetic::div_mod::lemma_multiply_divide_lt(
                i as int, ch as int, (w * h) as int);
            vstd::arithmetic::div_mod::lemma_fundamental_div_mod(
                (i / ch) as int, w as int);
            vstd::arithmetic::div_mod::lemma_multiply_divide_lt(
                (i / ch) as int, w as int, h as int);
            vstd::arithmetic::div_mod::lemma_mod_division_less_than_divisor(
                i as int, ch as int);
            vstd::arithmetic::div_mod::lemma_mod_division_less_than_divisor(
                (i / ch) as int, w as int);
        }
        let c = i % ch;
        let p = i / ch;
        let x = p % w;
        let y = p / w;
        let v = img.get_pix(x as i32, (h - 1 - y) as i32, c);
        data.push(v);
        proof {
            crate::image::lemma_pix_index_bounds(w as int, h as int, ch as int,
                x as int, (h - 1 - y) as int, c as int);
            assert(crate::image::pix_index(w as int, ch as int,
                x as int, (h - 1 - y) as int, c as int)
                == rev_src(i as int, w as int, h as int, ch as int));
        }
        i = i + 1;
    }
    let r = ImageBuffer::new(data, img.width(), img.height(), ch);
    proof {
        assert forall|x: int, y: int, c: int|
            0 <= x < img.width && 0 <= y < img.height && 0 <= c < img.channels
                implies #[trigger] r.pix(x, y, c) == img.pix(x, img.height - 1 - y, c) by {
            let wi = w as int;
            let chi = ch as int;
            crate::image::lemma_pix_index_bounds(wi, h as int, chi, x, y, c);
            let j = crate::image::pix_index(wi, chi, x, y, c);
            vstd::arithmetic::div_mod::lemma_fundamental_div_mod_converse(
                j, chi, y * wi + x, c);
            vstd::arithmetic::div_mod::lemma_fundamental_div_mod_converse(
                y * wi + x, wi, y, x);
            crate::image::lemma_pix_index_bounds(wi, h as int, chi, x, h as int - 1 - y, c);
        }
    }
    r
}

/// Drops the alpha channel of a 4-channel 8-bit buffer, keeping the three
/// color channels of every pixel.
#[verifier::spinoff_prover]
pub fn rgba_to_rgb(img: &ImageBuffer<u8>) -> (r: ImageBuffer<u8>)
    requires
        img.wf(),
        img.channels == 4,
    ensures
        r.wf(),
        r.width == img.width,
        r.height == img.height,
        r.channels == 3,
        forall|x: int, y: int, c: int|
            0 <= x < img.width && 0 <= y < img.height && 0 <= c < 3
                ==> #[trigger] r.pix(x, y, c) == img.pix(x, y, c),
{
    let w = img.width() as usize;
    let h = img.height() as usize;
    proof {
        assert(w * h <= 16384 * 16384 && (w * h) * 3 == w * h * 3) by (nonlinear_arith)
            requires 0 <= w <= 16384, 0 <= h <= 16384;
    }
    let total = w * h * 3;
    let mut data: Vec<u8> = Vec::new();
    let mut i: usize = 0;
    while i < total
        invariant
            0 <= i <= total,
            img.wf(),
            img.channels == 4,
            w == img.width,
            h == img.height,
            total == w * h * 3,
            data@.len() == i,
            forall|j: int| 0 <= j < i
                ==> #[trigger] data@[j] == img.view()[(j / 3) * 4 + j % 3],
        decreases total - i,
    {
        proof {
            assert(3 * (w * h) == total && (w * h) * 3 == total && w >= 1 && h >= 1)
                by (nonlinear_arith)
                requires total == w * h * 3, i < total, 0 <= i, 0 <= w, 0 <= h;
            vstd::arithmetic::div_mod::lemma_fundamental_div_mod(i as int, 3);
            vstd::arithmetic::div_mod::lemma_multiply_divide_lt(
                i as int, 3, (w * h) as int);
            vstd::arithmetic::div_mod::lemma_fundamental_div_mod((i / 3) as int, w as int);
            vstd::arithmetic::div_mod::lemma_multiply_divide_lt(
                (i / 3) as int, w as int, h as int);
            vstd::arithmetic::div_mod::lemma_mod_division_less_than_divisor(i as int, 3);
            vstd::arithmetic::div_mod::lemma_mod_division_less_than_divisor(
                (i / 3) as int, w as int);
        }
        let c = i % 3;
        let p = i / 3;
        let x = p % w;
        let y = p / w;
        let v = img.get_pix(x as i32, y as i32, c);
        data.push(v);
        proof {
            crate::image::lemma_pix_index_bounds(w as int, h as int, 4,
                x as int, y as int, c as int);
            assert(p as int == i as int / 3 && c as int == i as int % 3);
            assert(x as int == (i as int / 3) % (w as int)
                && y as int == (i as int / 3) / (w as int));
            assert(i as int / 3 == (w as int) * (y as int) + (x as int));
            assert(i as int == 3 * (i as int / 3) + i as int % 3);
            assert(i as int == ((y * w + x) as int) * 3 + c as int);
            vstd::arithmetic::div_mod::lemma_fundamental_div_mod_converse(
                i as int, 3, (y * w + x) as int, c as int);
            assert(crate::image::pix_index(w as int, 4, x as int, y as int, c as int)
                == (i as int / 3) * 4 + i as int % 3);
        }
        i = i + 1;
    }
    proof {
        assert(w * h * 3 <= 16384 * 16384 * 4) by (nonlinear_arith)
            requires 0 <= w <= 16384, 0 <= h <= 16384;
    }
    let r = ImageBuffer::new(data, img.width(), img.height(), 3);
    proof {
        assert forall|x: int, y: int, c: int|
            0 <= x < img.width && 0 <= y < img.height && 0 <= c < 3
                implies #[trigger] r.pix(x, y, c) == img.pix(x, y, c) by {
            let wi = w as int;
            crate::image::lemma_pix_index_bounds(wi, h as int, 3, x, y, c);
            let j = crate::image::pix_index(wi, 3, x, y, c);
            vstd::arithmetic::div_mod::lemma_fundamental_div_mod_converse(
                j, 3, y * wi + x, c);
            crate::image::lemma_pix_index_bounds(wi, h as int, 4, x, y, c);
        }
    }
    r
}

/// What [`reassemble`] returns: the inverse copy of [`decomposed`] — the
/// mosaic pixel of each consumed slot equals the corresponding tile pixel.
pub open spec fn reassembled<T: Copy>(
    out: ImageBuffer<T>, tiles: Seq<ImageBuffer<T>>,
    ats: int, tile_size: int, texture_size: int,
) -> bool {
    let ratio = tile_size / ats;
    let subs = ratio * ratio;
    let num = 12 * (texture_size / tile_size) * (texture_size / tile_size);
    forall|n: int, x: int, y: int, c: int|
        0 <= n < num && 0 <= x < tile_size && 0 <= y < tile_size
            && 0 <= c < out.channels
            && spec_mort((y / ats) as nat, (x / ats) as nat) < subs
            ==> out.pix(
                (spec_tile_slot(n, x, y, ats, subs) % 27) * ats + x % ats,
                (spec_tile_slot(n, x, y, ats, subs) / 27) * ats + y % ats,
                c) == (#[trigger] tiles[n].pix(x, y, c))
}

/// Reassembles the tiles of [`decompose`] back into an all-sky mosaic: the
/// inverse sub-rectangle copies, walking the same slots along the same
/// curve.
#[verifier::rlimit(50)]
pub fn reassemble<T: Copy>(
    tiles: &Vec<ImageBuffer<T>>,
    fill: &Vec<T>,
    sub_tile_size: i32,
    texture_size: i32,
    tile_size: i32,
) -> (r: ImageBuffer<T>)
    requires
        decompose_dims_ok(sub_tile_size as int, tile_size as int, texture_size as int),
        29 * sub_tile_size <= 16384,
        1 <= fill@.len() <= 4,
        tiles@.len() == 12 * (texture_size as int / tile_size as int)
            * (texture_size as int / tile_size as int),
        forall|n: int| 0 <= n < tiles@.len() ==> {
            &&& (#[trigger] tiles@[n]).wf()
            &&& tiles@[n].width == tile_size
            &&& tiles@[n].height == tile_size
            &&& tiles@[n].channels == fill@.len()
        },
    ensures
        r.wf(),
        r.width == 27 * sub_tile_size,
        r.height == 29 * sub_tile_size,
        r.channels == fill@.len(),
        reassembled(r, tiles@, sub_tile_size as int, tile_size as int,
            texture_size as int),
{
    let ats = sub_tile_size;
    let ratio = tile_size / ats;
    let tpt = texture_size / tile_size;
    let ghost m: nat = choose|mm: nat| ratio as int == pow2(mm);
    proof {
        vstd::arithmetic::div_mod::lemma_fundamental_div_mod(tile_size as int, ats as int);
        vstd::arithmetic::div_mod::lemma_fundamental_div_mod(
            texture_size as int, tile_size as int);
        assert(1 <= ratio as int && ratio as int <= tile_size as int
            && tile_size == ratio * ats) by (nonlinear_arith)
            requires
                1 <= ats <= tile_size,
                tile_size % ats == 0,
                tile_size == ats * (tile_size as int / ats as int) + tile_size % ats,
                ratio == tile_size as int / ats as int;
        assert(1 <= tpt as int && texture_size == tpt * tile_size) by (nonlinear_arith)
            requires
                1 <= tile_size <= texture_size,
                texture_size % tile_size == 0,
                texture_size == tile_size * (texture_size as int / tile_size as int)
                    + texture_size % tile_size,
                tpt == texture_size as int / tile_size as int;
        assert(ratio as int * ratio as int <= 27 * 29
            && 12 * (tpt as int) <= 27 * 29
            && 12 * (tpt as int) * (tpt as int) <= 27 * 29
            && (12 * (tpt as int) * (tpt as int)) * (ratio as int * ratio as int)
                <= 27 * 29)
            by (nonlinear_arith)
            requires
                1 <= ratio, 1 <= tpt,
                12 * (tpt as int) * (tpt as int)
                    * ((ratio as int) * (ratio as int)) <= 27 * 29;
    }
    let subs = ratio * ratio;
    let num_tiles = 12 * tpt * tpt;
    let mut out = ImageBuffer::<T>::allocate(fill, 27 * ats, 29 * ats);
    let mut n: i32 = 0;
    while n < num_tiles
        invariant
            0 <= n <= num_tiles,
            out.wf(),
            out.width == 27 * ats,
            out.height == 29 * ats,
            out.channels == fill@.len(),
            1 <= fill@.len() <= 4,
            1 <= ats <= tile_size <= 16384,
            tile_size == ratio * ats,
            1 <= ratio,
            subs == ratio * ratio,
            ratio as int == pow2(m),
            num_tiles == 12 * (texture_size as int / tile_size as int)
                * (texture_size as int / tile_size as int),
            num_tiles as int * subs as int <= 27 * 29,
            tiles@.len() == num_tiles,
            forall|j: int| 0 <= j < tiles@.len() ==> {
                &&& (#[trigger] tiles@[j]).wf()
                &&& tiles@[j].width == tile_size
                &&& tiles@[j].height == tile_size
                &&& tiles@[j].channels == fill@.len()
            },
            forall|j: int, x: int, y: int, c: int|
                0 <= j < n && 0 <= x < tile_size && 0 <= y < tile_size
                    && 0 <= c < fill@.len()
                    && spec_mort((y / ats as int) as nat, (x / ats as int) as nat)
                        < subs
                    ==> out.pix(
                        (spec_tile_slot(j, x, y, ats as int, subs as int) % 27)
                            * ats + x % ats as int,
                        (spec_tile_slot(j, x, y, ats as int, subs as int) / 27)
                            * ats + y % ats as int,
                        c) == (#[trigger] tiles@[j].pix(x, y, c)),
        decreases num_tiles - n,
    {
        proof {
            assert forall|j: int, x: int, y: int, c: int|
                0 <= j < tiles@.len() && 0 <= x < tile_size && 0 <= y < tile_size
                    && 0 <= c < fill@.len()
                    && spec_mort((y / ats as int) as nat, (x / ats as int) as nat) < subs
                    && spec_tile_slot(j, x, y, ats as int, subs as int)
                        < n as int * subs as int
                    implies out.pix(
                        (spec_tile_slot(j, x, y, ats as int, subs as int) % 27)
                            * ats + x % ats as int,
                        (spec_tile_slot(j, x, y, ats as int, subs as int) / 27)
                            * ats + y % ats as int,
                        c) == (#[trigger] tiles@[j].pix(x, y, c)) by {
                let kk = spec_mort((y / ats as int) as nat, (x / ats as int) as nat);
                assert(j < n) by (nonlinear_arith)
                    requires
                        j * subs as int + kk < n as int * subs as int,
                        0 <= kk < subs, subs >= 1, 0 <= j;
            }
        }
        let mut k: i32 = 0;
        while k < subs
            invariant
                0 <= k <= subs,
                out.wf(),
                out.width == 27 * ats,
                out.height == 29 * ats,
                out.channels == fill@.len(),
                1 <= fill@.len() <= 4,
                1 <= ats <= tile_size <= 16384,
                tile_size == ratio * ats,
                1 <= ratio,
                subs == ratio * ratio,
                ratio as int == pow2(m),
                0 <= n < num_tiles,
                num_tiles as int * subs as int <= 27 * 29,
                tiles@.len() == num_tiles,
                forall|j: int| 0 <= j < tiles@.len() ==> {
                    &&& (#[trigger] tiles@[j]).wf()
                    &&& tiles@[j].width == tile_size
                    &&& tiles@[j].height == tile_size
                    &&& tiles@[j].channels == fill@.len()
                },
                forall|j: int, x: int, y: int, c: int|
                    0 <= j < tiles@.len() && 0 <= x < tile_size && 0 <= y < tile_size
                        && 0 <= c < fill@.len()
                        && spec_mort((y / ats as int) as nat, (x / ats as int) as nat)
                            < subs
                        && spec_tile_slot(j, x, y, ats as int, subs as int)
                            < n * subs + k
                        ==> out.pix(
                            (spec_tile_slot(j, x, y, ats as int, subs as int) % 27)
                                * ats + x % ats as int,
                            (spec_tile_slot(j, x, y, ats as int, subs as int) / 27)
                                * ats + y % ats as int,
                            c) == (#[trigger] tiles@[j].pix(x, y, c)),
            decreases subs - k,
        {
            let (mxu, myu) = crate::morton::unmortonize(k as u64);
            proof {
                if mxu as nat >= pow2(m) || myu as nat >= pow2(m) {
                    crate::morton::lemma_mort_lower(mxu as nat, myu as nat, m);
                    assert(pow2(m) * pow2(m) == subs as int) by (nonlinear_arith)
                        requires pow2(m) == ratio as int, subs == ratio * ratio;
                }
                assert((mxu as int) < ratio as int && (myu as int) < ratio as int);
            }
            let mx = mxu as i32;
            let my = myu as i32;
            proof {
                assert(0 <= n as int * subs as int
                    && n as int * subs as int + k < num_tiles as int * subs as int)
                    by (nonlinear_arith)
                    requires 0 <= n, n < num_tiles, 0 <= k < subs, subs >= 1;
            }
            let slot = n * subs + k;
            proof {
                vstd::arithmetic::div_mod::lemma_mod_division_less_than_divisor(
                    slot as int, 27);
                vstd::arithmetic::div_mod::lemma_div_pos_is_pos(slot as int, 27);
                vstd::arithmetic::div_mod::lemma_multiply_divide_lt(slot as int, 27, 29);
                assert((slot as int % 27) * ats + ats <= 27 * ats) by (nonlinear_arith)
                    requires 0 <= slot as int % 27, (slot as int % 27) < 27, 1 <= ats;
                assert(0 <= (slot as int % 27) * ats && 0 <= (slot as int / 27) * ats)
                    by (nonlinear_arith)
                    requires 0 <= slot as int % 27, 0 <= slot as int / 27, 1 <= ats;
                assert((slot as int / 27) * ats + ats <= 29 * ats) by (nonlinear_arith)
                    requires 0 <= slot as int / 27, (slot as int / 27) < 29, 1 <= ats;
                assert(mx as int * ats + ats <= ratio * ats
                    && my as int * ats + ats <= ratio * ats
                    && 0 <= mx as int * ats && 0 <= my as int * ats) by (nonlinear_arith)
                    requires 0 <= mx as int && (mx as int) < ratio,
                        0 <= my as int && (my as int) < ratio, 1 <= ats;
            }
            let sx = my * ats;
            let sy = mx * ats;
            let dx = (slot % 27) * ats;
            let dy = (slot / 27) * ats;
            let ghost before = out;
            let tile = &tiles[n as usize];
            out.tex_sub(tile, sx, sy, ats, ats, dx, dy, ats, ats);
            proof {
                let atsi = ats as int;
                assert forall|j: int, x: int, y: int, c: int|
                    0 <= j < tiles@.len() && 0 <= x < tile_size && 0 <= y < tile_size
                        && 0 <= c < fill@.len()
                        && spec_mort((y / atsi) as nat, (x / atsi) as nat) < subs
                        && spec_tile_slot(j, x, y, atsi, subs as int)
                            < n * subs + k + 1
                        implies out.pix(
                            (spec_tile_slot(j, x, y, atsi, subs as int) % 27)
                                * ats + x % atsi,
                            (spec_tile_slot(j, x, y, atsi, subs as int) / 27)
                                * ats + y % atsi,
                            c) == (#[trigger] tiles@[j].pix(x, y, c)) by {
                    let u = y / atsi;
                    let v = x / atsi;
                    vstd::arithmetic::div_mod::lemma_fundamental_div_mod(y, atsi);
                    vstd::arithmetic::div_mod::lemma_fundamental_div_mod(x, atsi);
                    vstd::arithmetic::div_mod::lemma_mod_division_less_than_divisor(y, atsi);
                    vstd::arithmetic::div_mod::lemma_mod_division_less_than_divisor(x, atsi);
                    vstd::arithmetic::div_mod::lemma_div_pos_is_pos(y, atsi);
                    vstd::arithmetic::div_mod::lemma_div_pos_is_pos(x, atsi);
                    let kk = spec_mort(u as nat, v as nat);
                    let sl = spec_tile_slot(j, x, y, atsi, subs as int);
                    assert(sl == j * subs as int + kk);
                    vstd::arithmetic::div_mod::lemma_mod_division_less_than_divisor(sl, 27);
                    vstd::arithmetic::div_mod::lemma_div_pos_is_pos(sl, 27);
                    vstd::arithmetic::div_mod::lemma_fundamental_div_mod(sl, 27);
                    vstd::arithmetic::div_mod::lemma_fundamental_div_mod(slot as int, 27);
                    assert(0 <= sl) by (nonlinear_arith)
                        requires 0 <= j, 0 <= kk, subs >= 1, sl == j * subs as int + kk;
                    let gx = (sl % 27) * atsi + x % atsi;
                    let gy = (sl / 27) * atsi + y % atsi;
                    if sl == slot as int {
                        // The rectangle just written: the same slot.
                        assert(j == n && kk == k) by (nonlinear_arith)
                            requires
                                sl == j * subs as int + kk,
                                sl == n as int * subs as int + k,
                                0 <= kk < subs, 0 <= k < subs, 0 <= j, 0 <= n,
                                subs >= 1;
                        crate::morton::lemma_mort_injective(
                            u as nat, v as nat, mx as nat, my as nat);
                        assert(u == mx as int && v == my as int);
                        assert(sx as int == (my as int) * atsi);
                        assert(x == atsi * (x / atsi) + x % atsi);
                        assert(v * atsi == sx as int);
                        assert(x - sx == x % atsi);
                        assert(sy as int == (mx as int) * atsi);
                        assert(y == atsi * (y / atsi) + y % atsi);
                        assert(u * atsi == sy as int);
                        assert(y - sy == y % atsi);
                        assert(gx == dx + (x - sx) && gy == dy + (y - sy));
                        assert(0 <= x - sx && x - sx < ats && 0 <= y - sy && y - sy < ats);
                        assert(out.pix(dx + (x - sx), dy + (y - sy), c)
                            == tiles@[n as int].pix(sx + (x - sx), sy + (y - sy), c));
                    } else {
                        // An earlier slot: a different mosaic rectangle.
                        assert(sl < slot as int);
                        if dx <= gx < dx + ats && dy <= gy < dy + ats {
                            vstd::arithmetic::div_mod::lemma_fundamental_div_mod_converse(
                                gx, atsi, sl % 27, x % atsi);
                            vstd::arithmetic::div_mod::lemma_fundamental_div_mod_converse(
                                gx, atsi, slot as int % 27, gx - dx);
                            vstd::arithmetic::div_mod::lemma_fundamental_div_mod_converse(
                                gy, atsi, sl / 27, y % atsi);
                            vstd::arithmetic::div_mod::lemma_fundamental_div_mod_converse(
                                gy, atsi, slot as int / 27, gy - dy);
                            assert(sl % 27 == slot as int % 27
                                && sl / 27 == slot as int / 27);
                            assert(sl == slot as int);
                            assert(false);
                        }
                        assert(0 <= gx && gx < 27 * atsi) by (nonlinear_arith)
                            requires
                                gx == (sl % 27) * atsi + x % atsi,
                                0 <= sl % 27, (sl % 27) < 27,
                                0 <= x % atsi, (x % atsi) < atsi, 1 <= atsi;
                        assert(sl < 27 * 29) by (nonlinear_arith)
                            requires
                                sl < n as int * subs as int + k,
                                n as int * subs as int + k
                                    < num_tiles as int * subs as int,
                                num_tiles as int * subs as int <= 27 * 29;
                        vstd::arithmetic::div_mod::lemma_multiply_divide_lt(sl, 27, 29);
                        assert(0 <= gy && gy < 29 * atsi) by (nonlinear_arith)
                            requires
                                gy == (sl / 27) * atsi + y % atsi,
                                0 <= sl / 27, (sl / 27) < 29,
                                0 <= y % atsi, (y % atsi) < atsi, 1 <= atsi;
                        assert(out.pix(gx, gy, c) == before.pix(gx, gy, c));
                    }
                }
            }
            k = k + 1;
        }
        n = n + 1;
        proof {
            assert(n as int * subs as int == (n - 1) * subs as int + subs as int)
                by (nonlinear_arith);
            assert forall|j: int, x: int, y: int, c: int|
                0 <= j < n && 0 <= x < tile_size && 0 <= y < tile_size
                    && 0 <= c < fill@.len()
                    && spec_mort((y / ats as int) as nat, (x / ats as int) as nat)
                        < subs
                    implies out.pix(
                        (spec_tile_slot(j, x, y, ats as int, subs as int) % 27)
                            * ats + x % ats as int,
                        (spec_tile_slot(j, x, y, ats as int, subs as int) / 27)
                            * ats + y % ats as int,
                        c) == (#[trigger] tiles@[j].pix(x, y, c)) by {
                let kk = spec_mort((y / ats as int) as nat, (x / ats as int) as nat);
                assert(spec_tile_slot(j, x, y, ats as int, subs as int)
                    == j * subs as int + kk);
                assert(j * subs as int + kk < n as int * subs as int)
                    by (nonlinear_arith)
                    requires 0 <= j, j < n, 0 <= kk < subs, subs >= 1;
            }
        }
    }
    out
}

/// Decomposition followed by re-assembly reconstructs the mosaic exactly on
/// every consumed slot: the pixel at `(gx, gy)` of the re-assembled mosaic
/// equals the original's whenever its slot was consumed by a tile.
pub proof fn lemma_decompose_roundtrip<T: Copy>(
    mosaic: ImageBuffer<T>, tiles: Seq<ImageBuffer<T>>, out: ImageBuffer<T>,
    ats: int, tile_size: int, texture_size: int, gx: int, gy: int, c: int,
)
    requires
        mosaic.wf(),
        mosaic.width == 27 * ats,
        mosaic.height == 29 * ats,
        decompose_dims_ok(ats, tile_size, texture_size),
        decomposed(tiles, mosaic, ats, tile_size, texture_size),
        reassembled(out, tiles, ats, tile_size, texture_size),
        out.channels == mosaic.channels,
        0 <= gx < 27 * ats,
        0 <= gy < 29 * ats,
        0 <= c < mosaic.channels,
        (gy / ats) * 27 + gx / ats
            < 12 * (texture_size / tile_size) * (texture_size / tile_size)
                * ((tile_size / ats) * (tile_size / ats)),
    ensures
        out.pix(gx, gy, c) == mosaic.pix(gx, gy, c),
{
    let ratio = tile_size / ats;
    let subs = ratio * ratio;
    let num = 12 * (texture_size / tile_size) * (texture_size / tile_size);
    let m = choose|mm: nat| ratio == pow2(mm);
    vstd::arithmetic::div_mod::lemma_fundamental_div_mod(tile_size, ats);
    assert(1 <= ratio && tile_size == ratio * ats) by (nonlinear_arith)
        requires
            1 <= ats <= tile_size,
            tile_size % ats == 0,
            tile_size == ats * (tile_size / ats) + tile_size % ats,
            ratio == tile_size / ats;
    // Locate the slot of (gx, gy) and split it into tile and curve index.
    vstd::arithmetic::div_mod::lemma_fundamental_div_mod(gx, ats);
    vstd::arithmetic::div_mod::lemma_fundamental_div_mod(gy, ats);
    vstd::arithmetic::div_mod::lemma_mod_division_less_than_divisor(gx, ats);
    vstd::arithmetic::div_mod::lemma_mod_division_less_than_divisor(gy, ats);
    vstd::arithmetic::div_mod::lemma_div_pos_is_pos(gx, ats);
    vstd::arithmetic::div_mod::lemma_div_pos_is_pos(gy, ats);
    vstd::arithmetic::div_mod::lemma_multiply_divide_lt(gx, ats, 27);
    vstd::arithmetic::div_mod::lemma_multiply_divide_lt(gy, ats, 29);
    let s = (gy / ats) * 27 + gx / ats;
    assert(0 <= s) by (nonlinear_arith)
        requires s == (gy / ats) * 27 + gx / ats, 0 <= gy / ats, 0 <= gx / ats;
    vstd::arithmetic::div_mod::lemma_fundamental_div_mod_converse(
        s, 27, gy / ats, gx / ats);
    assert(s % 27 == gx / ats && s / 27 == gy / ats);
    vstd::arithmetic::div_mod::lemma_fundamental_div_mod(s, subs);
    vstd::arithmetic::div_mod::lemma_mod_division_less_than_divisor(s, subs);
    vstd::arithmetic::div_mod::lemma_div_pos_is_pos(s, subs);
    let n = s / subs;
    let kk = s % subs;
    assert(num * subs == 12 * (texture_size / tile_size) * (texture_size / tile_size)
        * ((tile_size / ats) * (tile_size / ats))) by (nonlinear_arith)
        requires subs == ratio * ratio, ratio == tile_size / ats,
            num == 12 * (texture_size / tile_size) * (texture_size / tile_size);
    assert(n < num) by (nonlinear_arith)
        requires s < num * subs, s == subs * n + kk, 0 <= kk < subs, subs >= 1, 0 <= n;
    // The curve covers the whole grid: some position maps to this index.
    assert(pow2(m) * pow2(m) == subs) by (nonlinear_arith)
        requires pow2(m) == ratio, subs == ratio * ratio;
    crate::morton::lemma_mort_surjective(kk as nat, m);
    let (u, v): (nat, nat) = choose|u: nat, v: nat|
        u < pow2(m) && v < pow2(m) && #[trigger] spec_mort(u, v) == kk as nat;
    let x = v * ats + gx % ats;
    let y = u * ats + gy % ats;
    assert(0 <= x && x < tile_size && 0 <= y && y < tile_size) by (nonlinear_arith)
        requires
            x == v * ats + gx % ats,
            y == u * ats + gy % ats,
            0 <= v < ratio, 0 <= u < ratio, 1 <= ats,
            0 <= gx % ats < ats, 0 <= gy % ats < ats,
            tile_size == ratio * ats;
    vstd::arithmetic::div_mod::lemma_fundamental_div_mod_converse(
        x, ats, v as int, gx % ats);
    vstd::arithmetic::div_mod::lemma_fundamental_div_mod_converse(
        y, ats, u as int, gy % ats);
    assert(x / ats == v as int && x % ats == gx % ats);
    assert(y / ats == u as int && y % ats == gy % ats);
    assert(spec_mort((y / ats) as nat, (x / ats) as nat) == kk as nat);
    assert(spec_tile_slot(n, x, y, ats, subs) == n * subs + kk);
    assert(n * subs + kk == s) by (nonlinear_arith)
        requires s == subs * n + kk;
    assert((s % 27) * ats + x % ats == gx && (s / 27) * ats + y % ats == gy);
    // Chain the two per-pixel maps.
    assert(tiles[n].pix(x, y, c) == mosaic.pix(gx, gy, c));
    assert(out.pix(gx, gy, c) == tiles[n].pix(x, y, c));
}

/// Decomposes a decoded numeric raster whose wire row order is reversed.
/// The rows of the whole mosaic are reversed once before decomposition,
/// and — because the GPU texture-coordinate convention additionally mirrors
/// numeric-raster tiles — each decomposed tile's rows are reversed once
/// more, after decomposition.  The two passes are separate corrections and
/// must both happen, in this order.  The contract pins every pixel of every
/// output tile to one channel item of the raw payload.
#[verifier::rlimit(50)]
pub fn decompose_fits<T: Copy>(
    raw: Vec<T>,
    fill: &Vec<T>,
    texture_size: i32,
    tile_size: i32,
) -> (r: Vec<ImageBuffer<T>>)
    requires
        1 <= fill@.len() <= 4,
        decompose_dims_ok(spec_allsky_tile_size(tile_size as int), tile_size as int,
            texture_size as int),
        raw@.len() == (27 * spec_allsky_tile_size(tile_size as int))
            * (29 * spec_allsky_tile_size(tile_size as int)) * fill@.len(),
    ensures
        ({
            let ats = spec_allsky_tile_size(tile_size as int);
            let ratio = tile_size as int / ats;
            let subs = ratio * ratio;
            let num = 12 * (texture_size as int / tile_size as int)
                * (texture_size as int / tile_size as int);
            let ch = fill@.len() as int;
            &&& r@.len() == num
            &&& forall|n: int| 0 <= n < num ==> {
                &&& (#[trigger] r@[n]).wf()
                &&& r@[n].width == tile_size
                &&& r@[n].height == tile_size
                &&& r@[n].channels == ch
            }
            &&& forall|n: int, x: int, y: int, c: int|
                0 <= n < num && 0 <= x < tile_size && 0 <= y < tile_size
                    && 0 <= c < ch
                    && spec_mort((((tile_size - 1 - y) as int) / ats) as nat,
                        (x / ats) as nat) < subs
                    ==> #[trigger] r@[n].pix(x, y, c) == raw@[crate::image::pix_index(
                        27 * ats, ch,
                        (spec_tile_slot(n, x, tile_size - 1 - y, ats, subs) % 27) * ats
                            + x % ats,
                        29 * ats - 1
                            - ((spec_tile_slot(n, x, tile_size - 1 - y, ats, subs) / 27)
                                * ats + (tile_size - 1 - y) % ats),
                        c)]
        }),
{
    let ats = if tile_size < 64 { tile_size } else { 64 };
    let ch = fill.len();
    proof {
        assert((27 * ats) * (29 * ats) * ch == (27 * ats as int) * (29 * ats as int)
            * ch as int) by (nonlinear_arith);
        assert(27 * ats <= 16384 && 29 * ats <= 16384) by (nonlinear_arith)
            requires 1 <= ats <= 64;
    }
    let rawimg = ImageBuffer::<T>::new(raw, 27 * ats, 29 * ats, ch);
    let mosaic = reverse_rows(&rawimg);
    let tiles0 = decompose(&mosaic, fill, ats, texture_size, tile_size);
    let ghost ratio = tile_size as int / ats as int;
    let ghost subs = ratio * ratio;
    let ghost num = 12 * (texture_size as int / tile_size as int)
        * (texture_size as int / tile_size as int);
    let mut out: Vec<ImageBuffer<T>> = Vec::new();
    let mut j: usize = 0;
    while j < tiles0.len()
        invariant
            j <= tiles0@.len(),
            out@.len() == j,
            tiles0@.len() == num,
            forall|p: int| 0 <= p < tiles0@.len() ==> {
                &&& (#[trigger] tiles0@[p]).wf()
                &&& tiles0@[p].width == tile_size
                &&& tiles0@[p].height == tile_size
                &&& tiles0@[p].channels == ch
            },
            forall|p: int| 0 <= p < j ==> {
                &&& (#[trigger] out@[p]).wf()
                &&& out@[p].width == tile_size
                &&& out@[p].height == tile_size
                &&& out@[p].channels == ch
            },
            forall|p: int, x: int, y: int, c: int|
                0 <= p < j && 0 <= x < tile_size && 0 <= y < tile_size && 0 <= c < ch
                    ==> #[trigger] out@[p].pix(x, y, c)
                        == tiles0@[p].pix(x, tile_size - 1 - y, c),
        decreases tiles0@.len() - j,
    {
        let rev = reverse_rows(&tiles0[j]);
        out.push(rev);
        j = j + 1;
    }
    proof {
        let atsi = ats as int;
        let chi = ch as int;
        assert forall|n: int, x: int, y: int, c: int|
            0 <= n < num && 0 <= x < tile_size && 0 <= y < tile_size
                && 0 <= c < chi
                && spec_mort((((tile_size - 1 - y) as int) / atsi) as nat,
                    (x / atsi) as nat) < subs
                implies #[trigger] out@[n].pix(x, y, c) == raw@[crate::image::pix_index(
                    27 * atsi, chi,
                    (spec_tile_slot(n, x, tile_size - 1 - y, atsi, subs) % 27) * atsi
                        + x % atsi,
                    29 * atsi - 1
                        - ((spec_tile_slot(n, x, tile_size - 1 - y, atsi, subs) / 27)
                            * atsi + (tile_size - 1 - y) % atsi),
                    c)] by {
            let yd = tile_size - 1 - y;
            assert(out@[n].pix(x, y, c) == tiles0@[n].pix(x, yd, c));
            let sl = spec_tile_slot(n, x, yd, atsi, subs);
            assert(tiles0@[n].pix(x, yd, c) == mosaic.pix(
                (sl % 27) * atsi + x % atsi, (sl / 27) * atsi + yd % atsi, c));
            let gx = (sl % 27) * atsi + x % atsi;
            let gy = (sl / 27) * atsi + yd % atsi;
            vstd::arithmetic::div_mod::lemma_mod_division_less_than_divisor(x, atsi);
            vstd::arithmetic::div_mod::lemma_mod_division_less_than_divisor(yd, atsi);
            let kk = spec_mort((yd / atsi) as nat, (x / atsi) as nat);
            vstd::arithmetic::div_mod::lemma_div_pos_is_pos(yd, atsi);
            vstd::arithmetic::div_mod::lemma_div_pos_is_pos(x, atsi);
            assert(0 <= sl) by (nonlinear_arith)
                requires sl == n * subs + kk, 0 <= n, 0 <= kk, subs >= 1;
            assert(sl < num * subs) by (nonlinear_arith)
                requires sl == n * subs + kk, n < num, 0 <= kk < subs, subs >= 1, 0 <= n;
            assert(num * subs <= 27 * 29) by (nonlinear_arith)
                requires
                    12 * (texture_size as int / tile_size as int)
                        * (texture_size as int / tile_size as int)
                        * ((tile_size as int / atsi) * (tile_size as int / atsi))
                            <= 27 * 29,
                    num == 12 * (texture_size as int / tile_size as int)
                        * (texture_size as int / tile_size as int),
                    subs == (tile_size as int / atsi) * (tile_size as int / atsi);
            vstd::arithmetic::div_mod::lemma_mod_division_less_than_divisor(sl, 27);
            vstd::arithmetic::div_mod::lemma_div_pos_is_pos(sl, 27);
            vstd::arithmetic::div_mod::lemma_multiply_divide_lt(sl, 27, 29);
            assert(0 <= gx && gx < 27 * atsi) by (nonlinear_arith)
                requires
                    gx == (sl % 27) * atsi + x % atsi,
                    0 <= sl % 27, (sl % 27) < 27,
                    0 <= x % atsi, (x % atsi) < atsi, 1 <= atsi;
            assert(0 <= gy && gy < 29 * atsi) by (nonlinear_arith)
                requires
                    gy == (sl / 27) * atsi + yd % atsi,
                    0 <= sl / 27, (sl / 27) < 29,
                    0 <= yd % atsi, (yd % atsi) < atsi, 1 <= atsi;
            assert(mosaic.pix(gx, gy, c) == rawimg.pix(gx, 29 * atsi - 1 - gy, c));
            crate::image::lemma_pix_index_bounds(27 * atsi, 29 * atsi, chi,
                gx, 29 * atsi - 1 - gy, c);
        }
    }
    out
}

} // verus!
