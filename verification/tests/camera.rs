use archer::camera::center_steps;
use archer::config::Resolution;

#[test]
fn the_four_pixels_of_the_smallest_square_surround_the_centre() {
    let r = Resolution::new(2, 2).unwrap();
    assert_eq!(center_steps(&r, 0, 0), (-1, 1));
    assert_eq!(center_steps(&r, 1, 0), (1, 1));
    assert_eq!(center_steps(&r, 0, 1), (-1, -1));
    assert_eq!(center_steps(&r, 1, 1), (1, -1));
}

#[test]
fn the_middle_pixel_of_an_odd_image_is_the_centre() {
    let r = Resolution::new(5, 3).unwrap();
    assert_eq!(center_steps(&r, 2, 1), (0, 0));
    assert_eq!(center_steps(&r, 0, 0), (-4, 2));
    assert_eq!(center_steps(&r, 4, 2), (4, -2));
}

#[test]
fn a_single_pixel_looks_along_the_axis() {
    let r = Resolution::new(1, 1).unwrap();
    assert_eq!(center_steps(&r, 0, 0), (0, 0));
}

#[test]
fn opposite_pixels_lie_at_opposite_steps() {
    let r = Resolution::new(8, 6).unwrap();
    for py in 0..6u16 {
        for px in 0..8u16 {
            let (sx, sy) = center_steps(&r, px, py);
            assert_eq!(center_steps(&r, 7 - px, 5 - py), (-sx, -sy));
        }
    }
}

#[test]
fn neighbours_lie_two_steps_apart() {
    let r = Resolution::new(8, 6).unwrap();
    let (sx, sy) = center_steps(&r, 3, 2);
    assert_eq!(center_steps(&r, 4, 2), (sx + 2, sy));
    assert_eq!(center_steps(&r, 3, 3), (sx, sy - 2));
}

#[test]
fn a_pixel_outside_the_image_lies_outside_the_viewport() {
    let r = Resolution::new(4, 4).unwrap();
    assert_eq!(center_steps(&r, 4, 0), (5, 3));
    assert_eq!(center_steps(&r, 0, 4), (-3, -5));
}

#[test]
fn the_extremes_do_not_overflow() {
    let r = Resolution::new(u16::MAX, u16::MAX).unwrap();
    assert_eq!(center_steps(&r, 0, 0), (-65534, 65534));
    assert_eq!(center_steps(&r, u16::MAX, u16::MAX), (65536, -65536));
    let s = Resolution::new(1, 1).unwrap();
    assert_eq!(center_steps(&s, u16::MAX, u16::MAX), (131070, -131070));
}

#[test]
fn pixels_of_the_image_lie_inside_the_viewport_at_distinct_places() {
    let r = Resolution::new(9, 4).unwrap();
    let mut seen = Vec::new();
    for py in 0..4u16 {
        for px in 0..9u16 {
            let (sx, sy) = center_steps(&r, px, py);
            assert!(-9 < sx && sx < 9);
            assert!(-4 < sy && sy < 4);
            assert!(!seen.contains(&(sx, sy)));
            seen.push((sx, sy));
        }
    }
}
