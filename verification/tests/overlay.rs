//! Sample planes and overlay composition.

use oxideav_avif::cicp::CicpTriple;
use oxideav_avif::compose::{ImageOverlay, OverlayEntry, OverlayInput, composite_overlay};
use oxideav_avif::image::AvifPixelFormat;
use oxideav_avif::overlay::{SamplePlanes, halve, pack_planes, unpack_planes};

fn chroma_dims(width: u32, height: u32, sx: u8, sy: u8) -> (u32, u32) {
    (halve(width, sx), halve(height, sy))
}

#[allow(clippy::too_many_arguments)]
fn planes(
    w: u32,
    h: u32,
    depth: u8,
    sx: u8,
    sy: u8,
    gray: bool,
    seed: u16,
    alpha: Option<u16>,
) -> SamplePlanes {
    let max = (1u16 << depth) - 1;
    let n = (w * h) as usize;
    let y: Vec<u16> = (0..n).map(|i| (i as u16 * 7 + seed) & max).collect();
    let (cw, ch) = chroma_dims(w, h, sx, sy);
    let cn = if gray { 0 } else { (cw * ch) as usize };
    let u: Vec<u16> = (0..cn).map(|i| (i as u16 * 3 + seed + 11) & max).collect();
    let v: Vec<u16> = (0..cn).map(|i| (i as u16 * 5 + seed + 23) & max).collect();
    SamplePlanes {
        width: w,
        height: h,
        bit_depth: depth,
        sx: if gray { 0 } else { sx },
        sy: if gray { 0 } else { sy },
        gray,
        y,
        u,
        v,
        alpha: alpha.map(|a| vec![a; n]),
    }
}

fn identity_full() -> CicpTriple {
    CicpTriple {
        colour_primaries: 1,
        transfer_characteristics: 13,
        matrix_coefficients: 0,
        full_range: true,
    }
}

fn bt709_limited() -> CicpTriple {
    CicpTriple {
        colour_primaries: 1,
        transfer_characteristics: 1,
        matrix_coefficients: 1,
        full_range: false,
    }
}

fn desc(w: u32, h: u32, fill: [u16; 4], offsets: &[(i32, i32)]) -> ImageOverlay {
    ImageOverlay {
        canvas_fill_value: fill,
        output_width: w,
        output_height: h,
        entries: offsets
            .iter()
            .map(|&(x, y)| OverlayEntry {
                horizontal_offset: x,
                vertical_offset: y,
            })
            .collect(),
    }
}

/// Round-trip every layout through unpack/pack.
#[test]
fn pack_unpack_round_trips_every_layout() {
    for depth in [8u8, 10, 12] {
        for (sx, sy, gray) in [(1, 1, false), (1, 0, false), (0, 0, false), (0, 0, true)] {
            for alpha in [None, Some(77u16)] {
                let p = planes(7, 5, depth, sx, sy, gray, 3, alpha);
                let (frame, fmt) = pack_planes(&p).expect("pack");
                assert!(fmt.bit_depth() == depth || fmt == AvifPixelFormat::Ya16Le);
                let back = unpack_planes(&frame, fmt, depth, 7, 5).expect("unpack");
                assert_eq!(
                    back, p,
                    "{depth}-bit sx={sx} sy={sy} gray={gray} alpha={alpha:?}"
                );
            }
        }
    }
}

/// One opaque input at (0,0) covering the canvas: output == input.
#[test]
fn single_covering_input_is_copied_exactly() {
    for depth in [8u8, 10, 12] {
        let p = planes(8, 6, depth, 1, 1, false, 5, None);
        let (frame, fmt) = pack_planes(&p).unwrap();
        let inp = OverlayInput {
            frame: &frame,
            format: fmt,
            bit_depth: depth,
            width: 8,
            height: 6,
            offset_x: 0,
            offset_y: 0,
            premultiplied: false,
        };
        // BT.709 limited fill would be unconvertible — but it never
        // shows, so composition succeeds.
        let d = desc(8, 6, [1000, 2000, 3000, 65535], &[(0, 0)]);
        let (out, ofmt, w, h) = composite_overlay(&d, &[inp], &bt709_limited()).expect("ok");
        assert_eq!((w, h), (8, 6));
        assert_eq!(ofmt, fmt);
        let back = unpack_planes(&out, ofmt, depth, 8, 6).unwrap();
        assert_eq!(back, p, "{depth}-bit");
    }
}

/// Identity-matrix fill converts exactly (Y=G, Cb=B, Cr=R scaled),
/// and a placed opaque input overrides it inside its rectangle.
#[test]
fn identity_fill_and_placement_8bit_444() {
    let p = planes(2, 2, 8, 0, 0, false, 40, None);
    let (frame, fmt) = pack_planes(&p).unwrap();
    let inp = OverlayInput {
        frame: &frame,
        format: fmt,
        bit_depth: 8,
        width: 2,
        height: 2,
        offset_x: 1,
        offset_y: 1,
        premultiplied: false,
    };
    // R=0xFFFF G=0x8000 B=0x0000 → Y(G)=128, Cb(B)=0, Cr(R)=255.
    let d = desc(4, 3, [0xFFFF, 0x8000, 0x0000, 65535], &[(1, 1)]);
    let (out, ofmt, w, h) = composite_overlay(&d, &[inp], &identity_full()).expect("ok");
    assert_eq!((w, h), (4, 3));
    assert_eq!(ofmt, AvifPixelFormat::Yuv444P);
    let o = unpack_planes(&out, ofmt, 8, 4, 3).unwrap();
    for y in 0..3u32 {
        for x in 0..4u32 {
            let i = (y * 4 + x) as usize;
            if (1..3).contains(&x) && (1..3).contains(&y) {
                let j = ((y - 1) * 2 + (x - 1)) as usize;
                assert_eq!(o.y[i], p.y[j], "Y at {x},{y}");
                assert_eq!(o.u[i], p.u[j], "U at {x},{y}");
                assert_eq!(o.v[i], p.v[j], "V at {x},{y}");
            } else {
                assert_eq!((o.y[i], o.u[i], o.v[i]), (128, 0, 255), "fill at {x},{y}");
            }
        }
    }
}

/// A fill that shows and cannot be converted is refused.
#[test]
fn visible_fill_is_converted_with_the_output_matrix() {
    let p = planes(2, 2, 8, 1, 1, false, 1, None);
    let (frame, fmt) = pack_planes(&p).unwrap();
    let inp = OverlayInput {
        frame: &frame,
        format: fmt,
        bit_depth: 8,
        width: 2,
        height: 2,
        offset_x: 0,
        offset_y: 0,
        premultiplied: false,
    };
    let d = desc(4, 4, [1, 2, 3, 65535], &[(0, 0)]);
    let (out, ofmt, _, _) = composite_overlay(&d, &[inp], &bt709_limited()).expect("ok");
    assert_eq!(ofmt, AvifPixelFormat::Yuv420P);
    let o = unpack_planes(&out, ofmt, 8, 4, 4).unwrap();
    assert_eq!(o.y[0], p.y[0], "input copied at (0,0)");
    assert_eq!(
        o.y[15], 16,
        "fill converted to the limited-range black level"
    );
    assert_eq!((o.u[3], o.v[3]), (128, 128), "fill chroma neutral");
    // Fully transparent fill: colour irrelevant → accepted, output
    // carries alpha.
    let d = desc(4, 4, [1, 2, 3, 0], &[(0, 0)]);
    let (out, ofmt, _, _) = composite_overlay(&d, &[inp], &bt709_limited()).expect("ok");
    assert_eq!(ofmt, AvifPixelFormat::Yuva420P);
    let o = unpack_planes(&out, ofmt, 8, 4, 4).unwrap();
    let a = o.alpha.unwrap();
    assert_eq!(a[0], 255);
    assert_eq!(a[15], 0);
}

#[test]
fn straight_alpha_over_matches_section_6_9_1() {
    for depth in [8u8, 10, 12] {
        let max = (1u32 << depth) - 1;
        let mut p = planes(4, 1, depth, 0, 0, true, 9, None);
        let alphas: Vec<u16> = vec![0, (max / 4) as u16, (max / 2) as u16, max as u16];
        p.alpha = Some(alphas.clone());
        p.y = vec![max as u16, max as u16, max as u16, max as u16];
        let (frame, fmt) = pack_planes(&p).unwrap();
        let inp = OverlayInput {
            frame: &frame,
            format: fmt,
            bit_depth: depth,
            width: 4,
            height: 1,
            offset_x: 0,
            offset_y: 0,
            premultiplied: false,
        };
        // Neutral 25% grey fill, opaque.
        let d = desc(4, 1, [16384, 16384, 16384, 65535], &[(0, 0)]);
        let (out, ofmt, _, _) = composite_overlay(&d, &[inp], &identity_full()).expect("ok");
        assert_eq!(ofmt.plane_count(), 1);
        assert!(!ofmt.has_alpha());
        let o = unpack_planes(&out, ofmt, depth, 4, 1).unwrap();
        let fill = f64::from(16384u16 >> (16 - depth));
        for (i, &a) in alphas.iter().enumerate() {
            let alpha = a as f64 / max as f64;
            let expect = (max as f64 * alpha + fill * (1.0 - alpha)).round() as i64;
            assert!(
                (o.y[i] as i64 - expect).abs() <= 1,
                "{depth}-bit sample {i}: got {} expected {expect}",
                o.y[i]
            );
        }
    }
}

/// Pre-multiplied input: vu = m + vi·(1−α).
#[test]
fn premultiplied_alpha_over() {
    let mut p = planes(2, 1, 8, 0, 0, true, 0, None);
    p.y = vec![100, 100];
    p.alpha = Some(vec![128, 255]);
    let (frame, fmt) = pack_planes(&p).unwrap();
    let inp = OverlayInput {
        frame: &frame,
        format: fmt,
        bit_depth: 8,
        width: 2,
        height: 1,
        offset_x: 0,
        offset_y: 0,
        premultiplied: true,
    };
    let d = desc(2, 1, [65535, 65535, 65535, 65535], &[(0, 0)]);
    let (out, ofmt, _, _) = composite_overlay(&d, &[inp], &identity_full()).expect("ok");
    let o = unpack_planes(&out, ofmt, 8, 2, 1).unwrap();
    // 100 + 255·(1 − 128/255) = 227; 100 + 0 = 100.
    assert_eq!(o.y[1], 100);
    assert!((o.y[0] as i32 - 227).abs() <= 1, "{}", o.y[0]);
}

/// Layering order: the later (top-most) input wins where inputs
/// overlap; negative and beyond-canvas offsets clip.
#[test]
fn layering_and_clipping() {
    let a = planes(3, 3, 8, 1, 1, false, 10, None);
    let b = planes(3, 3, 8, 1, 1, false, 200, None);
    let (fa, fmt) = pack_planes(&a).unwrap();
    let (fb, _) = pack_planes(&b).unwrap();
    let mk = |frame, x, y| OverlayInput {
        frame,
        format: fmt,
        bit_depth: 8,
        width: 3,
        height: 3,
        offset_x: x,
        offset_y: y,
        premultiplied: false,
    };
    // a at (-1,-1) covers canvas [0,2)²; b at (1,1) covers [1,3)².
    let d = desc(3, 3, [0, 0, 0, 0], &[(-1, -1), (1, 1)]);
    let (out, ofmt, _, _) =
        composite_overlay(&d, &[mk(&fa, -1, -1), mk(&fb, 1, 1)], &bt709_limited()).expect("ok");
    let o = unpack_planes(&out, ofmt, 8, 3, 3).unwrap();
    let al = o.alpha.as_ref().unwrap();
    // (0,0): a's (1,1).
    assert_eq!(o.y[0], a.y[4]);
    // (1,1): b's (0,0) on top.
    assert_eq!(o.y[4], b.y[0]);
    // (2,0): uncovered → transparent.
    assert_eq!(al[2], 0);
    assert_eq!(al[0], 255);
    // Off-canvas input contributes nothing.
    let d = desc(3, 3, [0, 0, 0, 0], &[(5, 5)]);
    let (out, ofmt, _, _) =
        composite_overlay(&d, &[mk(&fa, 5, 5)], &bt709_limited()).expect("ok");
    let o = unpack_planes(&out, ofmt, 8, 3, 3).unwrap();
    assert!(o.alpha.unwrap().iter().all(|&v| v == 0));
}

/// Mixed layouts are refused; hostile canvas / count mismatches too.
#[test]
fn guards() {
    let a = planes(2, 2, 8, 1, 1, false, 1, None);
    let b = planes(2, 2, 10, 1, 1, false, 1, None);
    let (fa, fmta) = pack_planes(&a).unwrap();
    let (fb, fmtb) = pack_planes(&b).unwrap();
    let ia = OverlayInput {
        frame: &fa,
        format: fmta,
        bit_depth: 8,
        width: 2,
        height: 2,
        offset_x: 0,
        offset_y: 0,
        premultiplied: false,
    };
    let ib = OverlayInput {
        frame: &fb,
        format: fmtb,
        bit_depth: 10,
        width: 2,
        height: 2,
        offset_x: 0,
        offset_y: 0,
        premultiplied: false,
    };
    let d = desc(2, 2, [0, 0, 0, 65535], &[(0, 0), (0, 0)]);
    assert!(composite_overlay(&d, &[ia, ib], &identity_full()).is_err());
    let d = desc(2, 2, [0, 0, 0, 65535], &[(0, 0)]);
    assert!(composite_overlay(&d, &[ia, ia], &identity_full()).is_err());
    let d = desc(0, 2, [0, 0, 0, 65535], &[(0, 0)]);
    assert!(composite_overlay(&d, &[ia], &identity_full()).is_err());
    let d = desc(65535, 65535, [0, 0, 0, 65535], &[(0, 0)]);
    assert!(composite_overlay(&d, &[ia], &identity_full()).is_err());
    assert!(composite_overlay(&desc(2, 2, [0; 4], &[]), &[], &identity_full()).is_err());
}

/// 4:2:0 input at an odd offset: the canvas is promoted to 4:4:4
/// (the input would land on a sub-sample chroma position), luma is
/// exact and the input's chroma is replicated to its luma positions.
#[test]
fn odd_offset_subsampled_input() {
    let p = planes(4, 4, 8, 1, 1, false, 33, None);
    let (frame, fmt) = pack_planes(&p).unwrap();
    let inp = OverlayInput {
        frame: &frame,
        format: fmt,
        bit_depth: 8,
        width: 4,
        height: 4,
        offset_x: 1,
        offset_y: 1,
        premultiplied: false,
    };
    let d = desc(6, 6, [0, 0, 0, 0], &[(1, 1)]);
    let (out, ofmt, _, _) = composite_overlay(&d, &[inp], &bt709_limited()).expect("ok");
    assert_eq!(
        ofmt,
        AvifPixelFormat::Yuva444P,
        "promoted; transparent fill → alpha"
    );
    let o = unpack_planes(&out, ofmt, 8, 6, 6).unwrap();
    let a = o.alpha.as_ref().unwrap();
    for y in 0..4usize {
        for x in 0..4usize {
            let i = (y + 1) * 6 + x + 1;
            assert_eq!(o.y[i], p.y[y * 4 + x]);
            // Input chroma (x/2, y/2) replicated to every covered
            // luma position.
            assert_eq!(o.u[i], p.u[(y / 2) * 2 + x / 2]);
            assert_eq!(o.v[i], p.v[(y / 2) * 2 + x / 2]);
            assert_eq!(a[i], 255);
        }
    }
    // Outside the input the transparent fill shows.
    assert_eq!(a[0], 0);
    assert_eq!(a[35], 0);
}
