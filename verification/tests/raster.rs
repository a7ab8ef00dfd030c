use archer::config::Resolution;
use archer::raster::{pixel_at, pixel_count, slot};

#[test]
fn slots_run_along_the_rows() {
    let r = Resolution::new(4, 3).unwrap();
    assert_eq!(pixel_count(&r), 12);
    assert_eq!(slot(&r, 0, 0), Some(0));
    assert_eq!(slot(&r, 3, 0), Some(3));
    assert_eq!(slot(&r, 0, 1), Some(4));
    assert_eq!(slot(&r, 2, 2), Some(10));
    assert_eq!(slot(&r, 3, 2), Some(11));
}

#[test]
fn no_slot_outside_the_image() {
    let r = Resolution::new(4, 3).unwrap();
    assert_eq!(slot(&r, 4, 0), None);
    assert_eq!(slot(&r, 0, 3), None);
    assert_eq!(pixel_at(&r, 12), None);
    assert_eq!(pixel_at(&r, usize::MAX), None);
}

#[test]
fn pixel_at_undoes_slot() {
    let r = Resolution::new(7, 5).unwrap();
    for py in 0..5u16 {
        for px in 0..7u16 {
            let s = slot(&r, px, py).unwrap();
            assert_eq!(pixel_at(&r, s), Some((px, py)));
        }
    }
}

#[test]
fn slot_undoes_pixel_at() {
    let r = Resolution::new(7, 5).unwrap();
    for s in 0..35usize {
        let (px, py) = pixel_at(&r, s).unwrap();
        assert_eq!(slot(&r, px, py), Some(s));
    }
}

#[test]
fn distinct_pixels_have_distinct_slots() {
    let r = Resolution::new(6, 4).unwrap();
    let mut seen = vec![false; pixel_count(&r)];
    for py in 0..4u16 {
        for px in 0..6u16 {
            let s = slot(&r, px, py).unwrap();
            assert!(!seen[s]);
            seen[s] = true;
        }
    }
    assert!(seen.iter().all(|&b| b));
}

#[test]
fn the_largest_image_has_a_last_slot() {
    let r = Resolution::new(u16::MAX, u16::MAX).unwrap();
    assert_eq!(pixel_count(&r), 65535 * 65535);
    assert_eq!(slot(&r, 65534, 65534), Some(65535 * 65535 - 1));
    assert_eq!(pixel_at(&r, 65535 * 65535 - 1), Some((65534, 65534)));
}
