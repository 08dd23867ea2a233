use hips_pipeline::image::ImageBuffer;
use hips_pipeline::place::{AtlasConfig, PlacementError, TileCell, place};
use hips_pipeline::allsky::{decompose, decompose_fits, reassemble, reverse_rows, rgba_to_rgb};
use hips_pipeline::morton::unmortonize;
use hips_pipeline::request::{log2_exact, AllskyRequest};
use hips_pipeline::image::ImageBufferType;

#[test]
fn atlas_config_accepts_square_slice() {
    let cfg = AtlasConfig::new(64, 128, 4).unwrap();
    assert_eq!(cfg.tiles_per_side, 2);
    assert_eq!(cfg.textures_per_side_slice, 2);
}

#[test]
fn atlas_config_rejects_non_square_slice() {
    assert!(matches!(AtlasConfig::new(64, 128, 2), Err(PlacementError::NonSquareSlice)));
}

#[test]
fn atlas_config_rejects_bad_dimensions() {
    assert!(matches!(AtlasConfig::new(0, 128, 4), Err(PlacementError::InvalidDimensions)));
    assert!(matches!(AtlasConfig::new(48, 128, 4), Err(PlacementError::InvalidDimensions)));
}

#[test]
fn place_computes_exact_offsets() {
    let cfg = AtlasConfig::new(64, 128, 4).unwrap();
    let cell = TileCell { depth: 1, idx: 5 };
    // pos-in-texture 5 % 4 = 1: column 0, row 1.
    // texture 3: slice 0, index-in-slice 3: column 1, row 1.
    let (slice, x, y) = place(&cell, 3, &cfg);
    assert_eq!(slice, 0);
    assert_eq!(x, 1 * 128 + 1 * 64);
    assert_eq!(y, 1 * 128 + 0 * 64);
}

#[test]
fn place_distinct_textures_never_overlap() {
    let cfg = AtlasConfig::new(64, 128, 4).unwrap();
    let cell = TileCell { depth: 0, idx: 0 };
    let mut rects = Vec::new();
    for t in 0..4 {
        let (slice, x, y) = place(&cell, t, &cfg);
        rects.push((slice, x, y));
    }
    for a in 0..rects.len() {
        for b in (a + 1)..rects.len() {
            let (s1, x1, y1) = rects[a];
            let (s2, x2, y2) = rects[b];
            let disjoint = s1 != s2
                || x1 + cfg.tile_size <= x2 || x2 + cfg.tile_size <= x1
                || y1 + cfg.tile_size <= y2 || y2 + cfg.tile_size <= y1;
            assert!(disjoint);
        }
    }
}

#[test]
fn tex_sub_copies_rectangle() {
    let src = ImageBuffer::<u8>::new((0u8..16).collect(), 4, 4, 1);
    let mut dst = ImageBuffer::<u8>::allocate(&vec![9u8], 4, 4);
    dst.tex_sub(&src, 1, 1, 2, 2, 0, 0, 2, 2);
    // dst(0,0) = src(1,1) = 5; dst(1,0) = src(2,1) = 6; dst(0,1) = src(1,2) = 9...
    assert_eq!(dst.get_pix(0, 0, 0), 5);
    assert_eq!(dst.get_pix(1, 0, 0), 6);
    assert_eq!(dst.get_pix(0, 1, 0), 9);
    assert_eq!(dst.get_pix(1, 1, 0), 10);
    // untouched pixels keep the fill value
    assert_eq!(dst.get_pix(3, 3, 0), 9);
    assert_eq!(dst.get_pix(2, 0, 0), 9);
}

#[test]
fn unmortonize_walks_the_curve() {
    assert_eq!(unmortonize(0), (0, 0));
    assert_eq!(unmortonize(1), (1, 0));
    assert_eq!(unmortonize(2), (0, 1));
    assert_eq!(unmortonize(3), (1, 1));
    assert_eq!(unmortonize(4), (2, 0));
    assert_eq!(unmortonize(7), (3, 1));
}

#[test]
fn decompose_places_slots_on_the_curve() {
    // 27 x 29 mosaic of 1-pixel sub-tiles, tiles of side 2, one tile per
    // texture: 12 tiles consuming 48 slots.
    let w = 27i32;
    let h = 29i32;
    let data: Vec<i16> = (0..(w * h) as i16).collect();
    let mosaic = ImageBuffer::<i16>::new(data, w, h, 1);
    let tiles = decompose(&mosaic, &vec![0i16], 1, 2, 2);
    assert_eq!(tiles.len(), 12);
    // Tile 0 holds slots 0..4 along the morton curve.
    assert_eq!(tiles[0].get_pix(0, 0, 0), 0); // slot 0 at (0,0)
    assert_eq!(tiles[0].get_pix(0, 1, 0), 1); // slot 1 at row 1
    assert_eq!(tiles[0].get_pix(1, 0, 0), 2); // slot 2 at col 1
    assert_eq!(tiles[0].get_pix(1, 1, 0), 3); // slot 3 diagonal
    // Tile 1 starts at slot 4.
    assert_eq!(tiles[1].get_pix(0, 0, 0), 4);
    // Slot 27 is the first of the second mosaic row.
    // Slot 27 = 6 * 4 + 3: tile 6, morton position (1,1).
    assert_eq!(tiles[6].get_pix(1, 1, 0), 27);
}

#[test]
fn decompose_roundtrip_rebuilds_consumed_slots() {
    let w = 27i32;
    let h = 29i32;
    let data: Vec<i16> = (0..(w * h) as i16).collect();
    let mosaic = ImageBuffer::<i16>::new(data, w, h, 1);
    let tiles = decompose(&mosaic, &vec![0i16], 1, 2, 2);
    // Re-assemble by walking tiles and the curve backwards.
    let mut rebuilt = vec![-1i16; (w * h) as usize];
    for (n, tile) in tiles.iter().enumerate() {
        for k in 0..4u64 {
            let (mx, my) = unmortonize(k);
            let slot = n as i32 * 4 + k as i32;
            let sx = slot % 27;
            let sy = slot / 27;
            rebuilt[(sy * w + sx) as usize] = tile.get_pix(my as i32, mx as i32, 0);
        }
    }
    for slot in 0..48 {
        let sx = slot % 27;
        let sy = slot / 27;
        assert_eq!(rebuilt[(sy * w + sx) as usize], (sy * w + sx) as i16);
    }
}

#[test]
fn reverse_rows_mirrors_vertically() {
    let img = ImageBuffer::<u8>::new(vec![1, 2, 3, 4, 5, 6], 2, 3, 1);
    let r = reverse_rows(&img);
    assert_eq!(r.get_pix(0, 0, 0), 5);
    assert_eq!(r.get_pix(1, 0, 0), 6);
    assert_eq!(r.get_pix(0, 2, 0), 1);
}

#[test]
fn rgba_to_rgb_drops_alpha() {
    let img = ImageBuffer::<u8>::new(vec![1, 2, 3, 255, 4, 5, 6, 128], 2, 1, 4);
    let r = rgba_to_rgb(&img);
    assert_eq!(r.get_data(), &vec![1, 2, 3, 4, 5, 6]);
}

#[test]
fn log2_of_powers() {
    assert_eq!(log2_exact(1), 0);
    assert_eq!(log2_exact(8), 3);
    assert_eq!(log2_exact(1 << 20), 20);
}

#[test]
fn allsky_request_handoff() {
    let req = AllskyRequest::new(String::from("hips"), String::from("url"), 64, 512, 7);
    assert_eq!(req.depth_tile, 3);
    assert!(!req.is_resolved());
    let mut req = match req.resolve() {
        Ok(_) => panic!("unresolved request must come back"),
        Err(r) => r,
    };
    req.fulfill(vec![ImageBufferType::R8UI(ImageBuffer::<u8>::allocate(&vec![0u8], 2, 2))]);
    assert!(req.is_resolved());
    let mut allsky = req.resolve().ok().unwrap();
    assert!(!allsky.missing());
    assert_eq!(allsky.get_hips_url(), "hips");
    assert_eq!(allsky.get_url(), "url");
    let tiles = allsky.take_image().unwrap();
    assert_eq!(tiles.len(), 1);
    assert!(allsky.missing());
}

#[test]
fn reassemble_inverts_decompose() {
    let w = 27i32;
    let h = 29i32;
    let data: Vec<i16> = (0..(w * h) as i16).collect();
    let mosaic = ImageBuffer::<i16>::new(data, w, h, 1);
    let tiles = decompose(&mosaic, &vec![0i16], 1, 2, 2);
    let out = reassemble(&tiles, &vec![-1i16], 1, 2, 2);
    // The 48 consumed slots come back byte for byte; the rest keeps the fill.
    for slot in 0..(w * h) {
        let x = slot % 27;
        let y = slot / 27;
        if slot < 48 {
            assert_eq!(out.get_pix(x, y, 0), mosaic.get_pix(x, y, 0));
        } else {
            assert_eq!(out.get_pix(x, y, 0), -1);
        }
    }
}

#[test]
fn fits_decomposition_applies_both_reversals() {
    let ats = 2i32;
    let (w, h) = (27 * ats, 29 * ats);
    let raw: Vec<i16> = (0..(w * h) as i16).collect();
    let fill = vec![0i16];
    let got = decompose_fits(raw.clone(), &fill, 4, 2);
    // The same result, spelled out: reverse the mosaic rows, decompose,
    // then reverse the rows of every tile.
    let rawimg = ImageBuffer::<i16>::new(raw, w, h, 1);
    let mosaic = reverse_rows(&rawimg);
    let expected: Vec<_> = decompose(&mosaic, &fill, ats, 4, 2)
        .iter()
        .map(reverse_rows)
        .collect();
    assert_eq!(got.len(), expected.len());
    for (g, e) in got.iter().zip(expected.iter()) {
        assert_eq!(g.get_data(), e.get_data());
    }
}
