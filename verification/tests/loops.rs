use remodian::loops::{count_enclosed_loops, enclosed_components};

/// A 128x128 mask, all background except the given rectangles' outlines.
fn mask_with_rings(rings: &[(usize, usize, usize, usize)]) -> Vec<bool> {
    let mut m = vec![true; 128 * 128];
    for &(x0, y0, x1, y1) in rings {
        for x in x0..=x1 {
            m[y0 * 128 + x] = false;
            m[y1 * 128 + x] = false;
        }
        for y in y0..=y1 {
            m[y * 128 + x0] = false;
            m[y * 128 + x1] = false;
        }
    }
    m
}

#[test]
fn empty_mask_has_no_loops() {
    assert_eq!(count_enclosed_loops(&vec![true; 128 * 128]), 0);
    assert_eq!(count_enclosed_loops(&vec![false; 128 * 128]), 0);
}

#[test]
fn zero_like_shape_has_one_loop() {
    let m = mask_with_rings(&[(30, 20, 90, 100)]);
    assert_eq!(count_enclosed_loops(&m), 1);
}

#[test]
fn eight_like_shape_has_two_loops() {
    // two rings stacked, sharing the middle bar
    let m = mask_with_rings(&[(30, 10, 90, 60), (30, 60, 90, 110)]);
    assert_eq!(count_enclosed_loops(&m), 2);
}

#[test]
fn open_shape_has_no_loop() {
    let mut m = mask_with_rings(&[(30, 20, 90, 100)]);
    // open the ring's right side
    m[50 * 128 + 90] = true;
    assert_eq!(count_enclosed_loops(&m), 0);
}

#[test]
fn ring_on_the_border_encloses() {
    // a ring touching the image border still encloses its inside
    let m = mask_with_rings(&[(0, 0, 10, 10)]);
    assert_eq!(count_enclosed_loops(&m), 1);
}

#[test]
fn many_small_loops() {
    let mut rings = Vec::new();
    for i in 0..20 {
        let x = 2 + (i % 10) * 12;
        let y = 2 + (i / 10) * 12;
        rings.push((x, y, x + 4, y + 4));
    }
    let m = mask_with_rings(&rings);
    assert_eq!(enclosed_components(&m), 20);
    assert_eq!(count_enclosed_loops(&m), 20);
}
