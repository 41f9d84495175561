use allcast::detiler::{
    detile_nv12_asm, detile_nv12_neon, detile_nv12_scalar, detile_plane_asm, detile_plane_neon,
    detile_plane_scalar, make_linear_nv12, nv12_planes, tile_nv12_reference, PlaneGeom, TILE_W,
};

const W: usize = 1920;
const H: usize = 1080;
const AH: usize = 1088; // luma column height padded to a multiple of 64

#[test]
fn scalar_round_trips() {
    let linear = make_linear_nv12(W, H);
    let tiled = tile_nv12_reference(&linear, W, H, AH);
    let mut out = vec![0u8; linear.len()];
    detile_nv12_scalar(&tiled, &mut out, W, H, AH);
    assert_eq!(out, linear, "scalar detile must invert the tiler");
}

#[test]
fn round_trips_with_partial_column() {
    // 1900 is not a multiple of 128 → exercise the remainder column path.
    let (w, h, ah) = (1900usize, 256usize, 256usize);
    let linear = make_linear_nv12(w, h);
    let tiled = tile_nv12_reference(&linear, w, h, ah);
    let mut out = vec![0u8; linear.len()];
    detile_nv12_scalar(&tiled, &mut out, w, h, ah);
    assert_eq!(out, linear);
}

#[test]
fn neon_matches_scalar() {
    let linear = make_linear_nv12(W, H);
    let tiled = tile_nv12_reference(&linear, W, H, AH);
    let mut a = vec![0u8; linear.len()];
    let mut b = vec![0u8; linear.len()];
    detile_nv12_scalar(&tiled, &mut a, W, H, AH);
    detile_nv12_neon(&tiled, &mut b, W, H, AH);
    assert_eq!(a, b, "NEON must match scalar");
    assert_eq!(b, linear, "NEON must reproduce the original");
}

#[test]
fn asm_matches_scalar() {
    let linear = make_linear_nv12(W, H);
    let tiled = tile_nv12_reference(&linear, W, H, AH);
    let mut a = vec![0u8; linear.len()];
    let mut b = vec![0u8; linear.len()];
    detile_nv12_scalar(&tiled, &mut a, W, H, AH);
    detile_nv12_asm(&tiled, &mut b, W, H, AH);
    assert_eq!(a, b, "asm must match scalar");
    assert_eq!(b, linear, "asm must reproduce the original");
}

#[test]
fn plane_geometry_values() {
    let g = PlaneGeom { width: 1900, height: 256, aligned_height: 272 };
    assert_eq!(g.cols(), 15);
    assert_eq!(g.col_stride(), TILE_W * 272);
    assert_eq!(g.tiled_len(), 15 * 128 * 272);
    assert_eq!(g.linear_len(), 1900 * 256);
    let exact = PlaneGeom { width: 256, height: 2, aligned_height: 2 };
    assert_eq!(exact.cols(), 2);
    let empty = PlaneGeom { width: 0, height: 4, aligned_height: 4 };
    assert_eq!(empty.cols(), 0);
    assert_eq!(empty.tiled_len(), 0);
}

#[test]
fn nv12_planes_halve_chroma() {
    let (l, c) = nv12_planes(1920, 1081, 1089);
    assert_eq!((l.width, l.height, l.aligned_height), (1920, 1081, 1089));
    assert_eq!((c.width, c.height, c.aligned_height), (1920, 540, 544));
}

#[test]
fn test_frame_bytes() {
    let v = make_linear_nv12(4, 3);
    assert_eq!(v.len(), 4 * 3 + 4 * 1);
    // luma (x, y) = (3x ^ 7y) as u8
    assert_eq!(v[0], 0);
    assert_eq!(v[1 * 4 + 2], (6 ^ 7) as u8);
    assert_eq!(v[2 * 4 + 3], (9 ^ 14) as u8);
    // chroma (x, y) = (5(x + y) ^ 0xA5) as u8
    assert_eq!(v[12], 0xA5);
    assert_eq!(v[12 + 3], (15 ^ 0xA5) as u8);
}

#[test]
fn tiled_offset_of_a_pixel() {
    // Byte (x = 130, y = 2) of a 300-wide plane with aligned_height 4 lives in
    // column 1 at 1 * 128 * 4 + 2 * 128 + 2.
    let (w, h, ah) = (300usize, 4usize, 4usize);
    let linear = make_linear_nv12(w, h);
    let tiled = tile_nv12_reference(&linear, w, h, ah);
    assert_eq!(tiled.len(), 3 * 128 * 4 + 3 * 128 * 2);
    assert_eq!(tiled[1 * 128 * 4 + 2 * 128 + 2], linear[2 * w + 130]);
    // Column padding beyond the visible width stays zero.
    assert_eq!(tiled[2 * 128 * 4 + 0 * 128 + 100], 0);
}

#[test]
fn plane_detile_keeps_row_padding() {
    // Destination stride wider than the plane: padding bytes are left alone.
    let g = PlaneGeom { width: 3, height: 2, aligned_height: 2 };
    let mut src = vec![0u8; g.tiled_len()];
    for (i, b) in src.iter_mut().enumerate() {
        *b = i as u8;
    }
    for detile in [detile_plane_scalar, detile_plane_neon, detile_plane_asm] {
        let mut dst = vec![0xEEu8; 10];
        detile(&src, &mut dst, g, 5);
        assert_eq!(dst, vec![0, 1, 2, 0xEE, 0xEE, 128, 129, 130, 0xEE, 0xEE]);
    }
}

#[test]
fn plane_detile_single_row_narrow_stride() {
    // One row: the stride does not matter, the row is copied whole.
    let g = PlaneGeom { width: 130, height: 1, aligned_height: 1 };
    let src: Vec<u8> = (0..g.tiled_len()).map(|i| (i % 251) as u8).collect();
    let mut dst = vec![0u8; 130];
    detile_plane_scalar(&src, &mut dst, g, 1);
    let expect: Vec<u8> = (0..130).map(|x| if x < 128 { x as u8 } else { (128 + (x - 128)) as u8 }).collect();
    assert_eq!(dst, expect);
}

#[test]
fn plane_detile_overlapping_rows_later_run_wins() {
    // Stride 2 < width 4: row 1 overwrites the tail of row 0.
    let g = PlaneGeom { width: 4, height: 2, aligned_height: 2 };
    let src: Vec<u8> = (0..g.tiled_len()).map(|i| (i % 256) as u8).collect();
    for detile in [detile_plane_scalar, detile_plane_neon, detile_plane_asm] {
        let mut dst = vec![0xEEu8; 7];
        detile(&src, &mut dst, g, 2);
        assert_eq!(dst, vec![0, 1, 128, 129, 130, 131, 0xEE]);
    }
}

#[test]
fn tiler_inverts_detiler_on_zero_padded_frames() {
    // Visible bytes arbitrary, padding (beyond width 300, rows beyond height) zero.
    let (w, h, ah) = (300usize, 6usize, 8usize);
    let (l, c) = nv12_planes(w, h, ah);
    let lt = l.tiled_len();
    let mut t = vec![0u8; lt + c.tiled_len()];
    for (plane, base, g) in [(0, 0, l), (1, lt, c)] {
        for col in 0..g.cols() {
            for y in 0..g.height {
                for k in 0..TILE_W {
                    let x = col * TILE_W + k;
                    if x < g.width {
                        t[base + col * g.col_stride() + y * TILE_W + k] = ((x * 7 + y * 13 + plane * 29) % 251 + 1) as u8;
                    }
                }
            }
        }
    }
    let mut dst = vec![0u8; w * h + w * (h / 2)];
    detile_nv12_scalar(&t, &mut dst, w, h, ah);
    assert_eq!(tile_nv12_reference(&dst, w, h, ah), t);
}
