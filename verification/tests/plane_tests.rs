use page_display::plane::Plane;

fn fresh(width: u8, height: u8) -> Plane {
    let p = Plane::new(width, height);
    // documented invariant: buffer size equals width * height / 8
    assert_eq!(p.bytes.len(), width as usize * height as usize / 8);
    assert_eq!(p.width, width);
    assert_eq!(p.height, height);
    p
}

#[test]
fn new_plane_is_zeroed() {
    let p = fresh(128, 64);
    assert!(p.bytes.iter().all(|&b| b == 0));
}

#[test]
fn set_bit_places_single_bit() {
    let mut p = fresh(128, 64);
    p.set_bit(5, 10, true);
    // byte index (y / 8) * width + x, bit y % 8
    assert_eq!(p.bytes[(10 / 8) * 128 + 5], 1 << (10 % 8));
    assert_eq!(p.bytes.iter().filter(|&&b| b != 0).count(), 1);
    assert!(p.get_bit(5, 10));
    assert!(!p.get_bit(5, 11));
}

#[test]
fn set_then_clear_leaves_bit_zero_and_others_alone() {
    let mut p = fresh(16, 16);
    p.set_bit(3, 9, true);
    p.set_bit(3, 10, true);
    p.set_bit(3, 10, false);
    assert!(!p.get_bit(3, 10));
    // the untouched neighbour bit in the same byte is unaffected, in order
    assert!(p.get_bit(3, 9));
}

#[test]
fn banded_fill_aligned_rect() {
    let mut p = fresh(16, 32);
    p.fill_rect_banded(2, 8, 10, 24, true);
    for x in 0..16u32 {
        for y in 0..32u32 {
            let expect = (2..10).contains(&x) && (8..24).contains(&y);
            assert_eq!(p.get_bit(x, y), expect, "pixel ({x},{y})");
        }
    }
}

#[test]
fn banded_fill_top_partial_only() {
    let mut p = fresh(8, 16);
    p.fill_rect_banded(0, 3, 8, 8, true);
    for x in 0..8u32 {
        for y in 0..16u32 {
            assert_eq!(p.get_bit(x, y), (3..8).contains(&y));
        }
    }
}

#[test]
fn banded_fill_bottom_partial_only() {
    let mut p = fresh(8, 16);
    p.fill_rect_banded(0, 8, 8, 13, true);
    for x in 0..8u32 {
        for y in 0..16u32 {
            assert_eq!(p.get_bit(x, y), (8..13).contains(&y));
        }
    }
}

#[test]
fn banded_fill_both_partial() {
    let mut p = fresh(8, 32);
    p.fill_rect_banded(1, 5, 7, 19, true);
    for x in 0..8u32 {
        for y in 0..32u32 {
            let expect = (1..7).contains(&x) && (5..19).contains(&y);
            assert_eq!(p.get_bit(x, y), expect);
        }
    }
}

#[test]
fn banded_fill_within_single_page() {
    let mut p = fresh(8, 16);
    p.fill_rect_banded(2, 9, 6, 12, true);
    for x in 0..8u32 {
        for y in 0..16u32 {
            let expect = (2..6).contains(&x) && (9..12).contains(&y);
            assert_eq!(p.get_bit(x, y), expect);
        }
    }
}

#[test]
fn banded_fill_off_clears_pixels() {
    let mut p = fresh(8, 16);
    p.fill_rect_banded(0, 0, 8, 16, true);
    p.fill_rect_banded(2, 3, 6, 11, false);
    for x in 0..8u32 {
        for y in 0..16u32 {
            let cleared = (2..6).contains(&x) && (3..11).contains(&y);
            assert_eq!(p.get_bit(x, y), !cleared);
        }
    }
}

#[test]
fn zero_height_fill_is_noop() {
    let mut p = fresh(8, 16);
    p.set_bit(1, 1, true);
    let before = p.bytes.clone();
    p.fill_rect_banded(0, 5, 8, 5, true);
    p.fill_rect_banded(3, 0, 3, 16, true);
    assert_eq!(p.bytes, before);
}

#[test]
fn banded_and_pixel_fills_are_byte_identical() {
    // the same rectangles, once banded, once pixel by pixel
    let cases: &[(u32, u32, u32, u32)] = &[
        (0, 0, 16, 32),
        (2, 8, 10, 24),
        (0, 3, 8, 8),
        (0, 8, 8, 13),
        (1, 5, 7, 19),
        (2, 9, 6, 12),
        (0, 3, 8, 17),
        (5, 5, 5, 9),
        (0, 0, 0, 0),
    ];
    for &(x0, y0, x1, y1) in cases {
        for &on in &[true, false] {
            let mut a = Plane::new(16, 32);
            let mut b = Plane::new(16, 32);
            // start from the same non-trivial contents
            for i in 0..a.bytes.len() {
                let v = (i as u8).wrapping_mul(37).wrapping_add(11);
                a.bytes[i] = v;
                b.bytes[i] = v;
            }
            a.fill_rect_banded(x0, y0, x1, y1, on);
            b.fill_rect_pixels(x0, y0, x1, y1, on);
            assert_eq!(a.bytes, b.bytes, "rect ({x0},{y0},{x1},{y1}) on={on}");
        }
    }
}

#[test]
fn page_banding_masks_match_manual_bits() {
    // 8-wide plane: rows 3..17 give a 0b11111000 top band on page 0,
    // a full 0xFF page 1, and a 0b00000001 bottom band on page 2
    let mut p = fresh(8, 24);
    p.fill_rect_banded(0, 3, 8, 17, true);
    for x in 0..8usize {
        assert_eq!(p.bytes[x], 0b1111_1000);
        assert_eq!(p.bytes[8 + x], 0xFF);
        assert_eq!(p.bytes[16 + x], 0b0000_0001);
    }
}

#[test]
fn clear_zeroes_every_byte() {
    let mut p = fresh(8, 16);
    p.fill_rect_banded(0, 0, 8, 16, true);
    p.clear();
    assert!(p.bytes.iter().all(|&b| b == 0));
}
