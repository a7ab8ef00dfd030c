use archer::config::{ConfigError, Resolution};
use archer::tiles::{Tile, TileGrid};

fn grid(width: u16, height: u16, tile_size: u16) -> TileGrid {
    TileGrid::new(Resolution::new(width, height).unwrap(), tile_size).unwrap()
}

#[test]
fn grid_rejects_a_zero_tile_size() {
    let resolution = Resolution::new(8, 8).unwrap();
    assert_eq!(TileGrid::new(resolution, 0), Err(ConfigError::ZeroTileSize));
}

#[test]
fn grid_counts_columns_and_rows() {
    let g = grid(5, 3, 2);
    assert_eq!(g.columns(), 3);
    assert_eq!(g.rows(), 2);
    assert_eq!(g.tile_count(), 6);
}

#[test]
fn grid_of_exact_multiples_has_no_clipped_tile() {
    let g = grid(8, 4, 4);
    assert_eq!(g.tile_count(), 2);
    assert_eq!(g.tile(0), Some(Tile { x: 0, y: 0, width: 4, height: 4 }));
    assert_eq!(g.tile(1), Some(Tile { x: 4, y: 0, width: 4, height: 4 }));
    assert_eq!(g.tile(2), None);
}

#[test]
fn tiles_at_the_edges_are_clipped() {
    let g = grid(5, 3, 2);
    assert_eq!(g.tile(0), Some(Tile { x: 0, y: 0, width: 2, height: 2 }));
    assert_eq!(g.tile(1), Some(Tile { x: 2, y: 0, width: 2, height: 2 }));
    assert_eq!(g.tile(2), Some(Tile { x: 4, y: 0, width: 1, height: 2 }));
    assert_eq!(g.tile(3), Some(Tile { x: 0, y: 2, width: 2, height: 1 }));
    assert_eq!(g.tile(4), Some(Tile { x: 2, y: 2, width: 2, height: 1 }));
    assert_eq!(g.tile(5), Some(Tile { x: 4, y: 2, width: 1, height: 1 }));
    assert_eq!(g.tile(6), None);
}

#[test]
fn a_tile_larger_than_the_image_is_the_image() {
    let g = grid(3, 2, 64);
    assert_eq!(g.tile_count(), 1);
    assert_eq!(g.tile(0), Some(Tile { x: 0, y: 0, width: 3, height: 2 }));
}

#[test]
fn tile_of_names_the_tile_of_a_pixel() {
    let g = grid(5, 3, 2);
    assert_eq!(g.tile_of(0, 0), Some(0));
    assert_eq!(g.tile_of(1, 1), Some(0));
    assert_eq!(g.tile_of(2, 0), Some(1));
    assert_eq!(g.tile_of(4, 1), Some(2));
    assert_eq!(g.tile_of(0, 2), Some(3));
    assert_eq!(g.tile_of(4, 2), Some(5));
}

#[test]
fn tile_of_knows_no_pixel_outside_the_image() {
    let g = grid(5, 3, 2);
    assert_eq!(g.tile_of(5, 0), None);
    assert_eq!(g.tile_of(0, 3), None);
    assert_eq!(g.tile_of(u16::MAX, u16::MAX), None);
}

#[test]
fn tiles_lists_every_tile_in_order() {
    let g = grid(5, 3, 2);
    let all = g.tiles();
    assert_eq!(all.len(), 6);
    for (i, tile) in all.iter().enumerate() {
        assert_eq!(Some(*tile), g.tile(i as u32));
    }
}

#[test]
fn every_pixel_lies_in_exactly_one_tile() {
    for (width, height, size) in [(5u16, 3u16, 2u16), (7, 7, 3), (1, 1, 1), (4, 9, 4), (10, 2, 16)] {
        let g = grid(width, height, size);
        let all = g.tiles();
        for py in 0..height {
            for px in 0..width {
                let holders: Vec<usize> =
                    (0..all.len()).filter(|&i| all[i].holds(px, py)).collect();
                assert_eq!(holders.len(), 1);
                assert_eq!(g.tile_of(px, py), Some(holders[0] as u32));
            }
        }
    }
}

#[test]
fn tile_areas_add_up_to_the_image() {
    for (width, height, size) in [(5u16, 3u16, 2u16), (7, 7, 3), (640, 480, 32), (33, 65, 8)] {
        let g = grid(width, height, size);
        let total: u64 = g.tiles().iter().map(|t| t.pixel_count() as u64).sum();
        assert_eq!(total, width as u64 * height as u64);
    }
}

#[test]
fn the_largest_image_with_the_smallest_tiles_is_counted() {
    let g = grid(u16::MAX, u16::MAX, 1);
    assert_eq!(g.columns(), 65535);
    assert_eq!(g.rows(), 65535);
    assert_eq!(g.tile_count(), 65535 * 65535);
    assert_eq!(
        g.tile(65535 * 65535 - 1),
        Some(Tile { x: 65534, y: 65534, width: 1, height: 1 })
    );
    assert_eq!(g.tile_of(65534, 65534), Some(65535 * 65535 - 1));
}

#[test]
fn tile_holds_its_pixels_only() {
    let t = Tile { x: 2, y: 4, width: 3, height: 2 };
    assert!(t.holds(2, 4));
    assert!(t.holds(4, 5));
    assert!(!t.holds(5, 4));
    assert!(!t.holds(2, 6));
    assert!(!t.holds(1, 4));
    assert!(!t.holds(2, 3));
    assert_eq!(t.pixel_count(), 6);
}

#[test]
fn tile_at_the_far_corner_does_not_wrap() {
    let t = Tile { x: u16::MAX, y: u16::MAX, width: u16::MAX, height: u16::MAX };
    assert!(t.holds(u16::MAX, u16::MAX));
    assert!(!t.holds(0, 0));
    assert_eq!(t.pixel_count(), 65535 * 65535);
}

#[test]
fn every_tile_is_a_piece_of_the_image_no_larger_than_the_tile_size() {
    for (width, height, size) in [(5u16, 3u16, 2u16), (7, 7, 3), (640, 480, 32), (33, 65, 8)] {
        let g = grid(width, height, size);
        for (i, t) in g.tiles().iter().enumerate() {
            assert!(t.width > 0 && t.width <= size);
            assert!(t.height > 0 && t.height <= size);
            assert!(t.x as u32 + t.width as u32 <= width as u32);
            assert!(t.y as u32 + t.height as u32 <= height as u32);
            assert_eq!(t.x as u32, (i as u32 % g.columns()) * size as u32);
            assert_eq!(t.y as u32, (i as u32 / g.columns()) * size as u32);
        }
    }
}

#[test]
fn fits_tells_whether_a_tile_lies_inside_the_image() {
    let r = Resolution::new(5, 3).unwrap();
    assert!(Tile { x: 0, y: 0, width: 5, height: 3 }.fits(&r));
    assert!(Tile { x: 4, y: 2, width: 1, height: 1 }.fits(&r));
    assert!(Tile { x: 5, y: 3, width: 0, height: 0 }.fits(&r));
    assert!(!Tile { x: 4, y: 2, width: 2, height: 1 }.fits(&r));
    assert!(!Tile { x: 4, y: 2, width: 1, height: 2 }.fits(&r));
    assert!(!Tile { x: u16::MAX, y: 0, width: u16::MAX, height: 1 }.fits(&r));
    for t in grid(5, 3, 2).tiles() {
        assert!(t.fits(&r));
    }
}
