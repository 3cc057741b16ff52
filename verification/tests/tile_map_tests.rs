use rust_ray::tile_map::{Cell, TileMap};

#[test]
fn default_map_dimensions() {
    let map = TileMap::default();
    assert_eq!(map.width(), 8);
    assert_eq!(map.height(), 8);
    assert_eq!(map.cell_size(), 64);
}

#[test]
fn default_map_border_is_walled() {
    let map = TileMap::default();
    for i in 0..8 {
        assert_eq!(map.cell_at(i, 0), Cell::Wall);
        assert_eq!(map.cell_at(i, 7), Cell::Wall);
        assert_eq!(map.cell_at(0, i), Cell::Wall);
        assert_eq!(map.cell_at(7, i), Cell::Wall);
    }
}

#[test]
fn default_map_interior_layout() {
    let map = TileMap::default();
    // the scattered interior walls, (col, row)
    assert_eq!(map.cell_at(2, 2), Cell::Wall);
    assert_eq!(map.cell_at(5, 2), Cell::Wall);
    assert_eq!(map.cell_at(3, 4), Cell::Wall);
    assert_eq!(map.cell_at(5, 5), Cell::Wall);
    assert_eq!(map.cell_at(2, 6), Cell::Wall);
    // a few open cells around them
    assert_eq!(map.cell_at(1, 1), Cell::Empty);
    assert_eq!(map.cell_at(4, 4), Cell::Empty);
    assert_eq!(map.cell_at(6, 6), Cell::Empty);
    assert_eq!(map.cell_at(3, 2), Cell::Empty);
}

#[test]
fn out_of_bounds_is_a_result_not_a_failure() {
    let map = TileMap::default();
    assert_eq!(map.cell_at(8, 0), Cell::OutOfBounds);
    assert_eq!(map.cell_at(0, 8), Cell::OutOfBounds);
    assert_eq!(map.cell_at(8, 8), Cell::OutOfBounds);
    assert_eq!(map.cell_at(1000, 1000), Cell::OutOfBounds);
}

#[test]
fn blocks_ray_on_walls_and_outside() {
    let map = TileMap::default();
    assert!(map.blocks_ray(0, 0)); // border wall
    assert!(map.blocks_ray(2, 2)); // interior wall
    assert!(!map.blocks_ray(1, 1)); // open floor
    assert!(map.blocks_ray(9, 9)); // outside the map
}
