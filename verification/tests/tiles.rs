use path_tracer::tiles::{pixel_count, tile_at, tile_count, tiles_along, Tile, TILE_SIZE};

#[test]
fn tile_size_is_sixteen() {
    assert_eq!(TILE_SIZE, 16);
}

#[test]
fn tiles_along_rounds_up() {
    assert_eq!(tiles_along(0), 0);
    assert_eq!(tiles_along(1), 1);
    assert_eq!(tiles_along(16), 1);
    assert_eq!(tiles_along(17), 2);
    assert_eq!(tiles_along(1200), 75);
    assert_eq!(tiles_along(u32::MAX), 0x1000_0000);
}

#[test]
fn tile_count_multiplies_both_axes() {
    assert_eq!(tile_count(1200, 675), 75 * 43);
    assert_eq!(tile_count(0, 100), 0);
    assert_eq!(tile_count(u32::MAX, u32::MAX), 0x1000_0000u64 * 0x1000_0000u64);
}

#[test]
fn pixel_count_does_not_overflow() {
    assert_eq!(pixel_count(1200, 675), 810_000);
    assert_eq!(pixel_count(u32::MAX, u32::MAX), (u32::MAX as u64) * (u32::MAX as u64));
}

#[test]
fn tiles_are_numbered_row_by_row() {
    // 40 x 20 pixels: three tiles across, two down.
    assert_eq!(tile_count(40, 20), 6);
    assert_eq!(tile_at(0, 40, 20), Tile { x0: 0, y0: 0, x1: 16, y1: 16 });
    assert_eq!(tile_at(1, 40, 20), Tile { x0: 16, y0: 0, x1: 32, y1: 16 });
    assert_eq!(tile_at(2, 40, 20), Tile { x0: 32, y0: 0, x1: 40, y1: 16 });
    assert_eq!(tile_at(3, 40, 20), Tile { x0: 0, y0: 16, x1: 16, y1: 20 });
    assert_eq!(tile_at(5, 40, 20), Tile { x0: 32, y0: 16, x1: 40, y1: 20 });
}

#[test]
fn edge_tile_of_the_widest_image_stops_at_the_border() {
    let last = tile_count(u32::MAX, 1) - 1;
    let tile = tile_at(last, u32::MAX, 1);
    assert_eq!(tile, Tile { x0: 0xffff_fff0, y0: 0, x1: u32::MAX, y1: 1 });
}

#[test]
fn tile_lists_its_pixels_row_major() {
    let tile = Tile { x0: 32, y0: 16, x1: 35, y1: 18 };
    assert_eq!(
        tile.pixels(),
        vec![(32, 16), (33, 16), (34, 16), (32, 17), (33, 17), (34, 17)]
    );
}

#[test]
fn tile_without_columns_or_rows_lists_nothing() {
    assert!(Tile { x0: 5, y0: 0, x1: 5, y1: 9 }.pixels().is_empty());
    assert!(Tile { x0: 0, y0: 7, x1: 3, y1: 2 }.pixels().is_empty());
}

#[test]
fn every_pixel_lies_in_exactly_one_tile() {
    let (width, height) = (37u32, 50u32);
    let mut seen = vec![0u32; (width * height) as usize];
    for index in 0..tile_count(width, height) {
        let tile = tile_at(index, width, height);
        assert!(tile.x0 < tile.x1 && tile.x1 <= width);
        assert!(tile.y0 < tile.y1 && tile.y1 <= height);
        for (i, j) in tile.pixels() {
            seen[(j * width + i) as usize] += 1;
        }
    }
    assert!(seen.iter().all(|&n| n == 1));
}
