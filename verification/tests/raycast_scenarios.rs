//! Ray-march scenarios over the verified map: the fixed-step march of the
//! renderer, driven here in cell units against `TileMap`'s bounds-checked
//! queries.

use rust_ray::rrm::read_map_data;
use rust_ray::tile_map::TileMap;

const STEP: f32 = 0.1;

/// One fixed-step march in cell units: advance until the position's cell
/// is a wall or lies outside the map, and return the distance traveled.
fn march(map: &TileMap, x0: f32, y0: f32, angle: f32) -> f32 {
    let dx = angle.cos();
    let dy = angle.sin();
    let mut x = x0;
    let mut y = y0;
    let mut dist = 0.0f32;
    loop {
        x += dx * STEP;
        y += dy * STEP;
        dist += STEP;
        if x < 0.0 || y < 0.0 || map.blocks_ray(x as usize, y as usize) {
            return dist;
        }
        assert!(dist < 1000.0, "march did not terminate");
    }
}

#[test]
fn ray_hits_a_wall_straight_ahead_within_one_step() {
    // on the built-in map, cell (5, 2) is a wall; marching from (3.5, 2.5)
    // along +x crosses empty cells until the wall boundary at x = 5.0,
    // a distance of 1.5
    let map = TileMap::default();
    let d = march(&map, 3.5, 2.5, 0.0);
    assert!(d >= 1.4 && d <= 1.65, "distance {} not within a step of 1.5", d);
}

#[test]
fn empty_map_rays_stop_at_the_boundary() {
    // a 4-by-4 map with no walls at all: every ray stops at the map edge
    let mut map = TileMap::default();
    read_map_data(
        &b"SIZE=4\n[0,0,0,0,],\n[0,0,0,0,],\n[0,0,0,0,],\n[0,0,0,0,],\n".to_vec(),
        &mut map,
    );
    let diagonal = (2.0f32 * 16.0).sqrt(); // 4 * sqrt(2)

    // along +x from (1, 1): the boundary lies 3 cells ahead
    let d = march(&map, 1.0, 1.0, 0.0);
    assert!((d - 3.0).abs() <= 0.15, "distance {} not within a step of 3.0", d);
    assert!(d <= diagonal);

    // along -x: the boundary lies 1 cell behind
    let d = march(&map, 1.0, 1.0, std::f32::consts::PI);
    assert!((d - 1.0).abs() <= 0.15, "distance {} not within a step of 1.0", d);

    // along +y
    let d = march(&map, 1.0, 1.0, std::f32::consts::FRAC_PI_2);
    assert!((d - 3.0).abs() <= 0.15, "distance {} not within a step of 3.0", d);

    // and diagonally: still bounded by the map diagonal
    let d = march(&map, 1.0, 1.0, std::f32::consts::FRAC_PI_4);
    assert!(d <= diagonal, "distance {} exceeds the diagonal {}", d, diagonal);
}

#[test]
fn default_map_scenario_all_rays_bounded_by_the_diagonal() {
    // the built-in 8-by-8 map, origin (2.0, 2.0), heading 0, a 60-degree
    // field of view fanned over 320 columns: one bounded hit per column
    let map = TileMap::default();
    let fov = std::f32::consts::PI / 3.0;
    let columns = 320usize;
    let diagonal = (2.0f32 * 64.0).sqrt(); // 8 * sqrt(2), about 11.3

    let mut hits = Vec::new();
    for i in 0..columns {
        let angle = -(fov / 2.0) + i as f32 * (fov / columns as f32);
        hits.push(march(&map, 2.0, 2.0, angle));
    }

    assert_eq!(hits.len(), columns);
    for (i, d) in hits.iter().enumerate() {
        assert!(*d > 0.0, "ray {} has no distance", i);
        assert!(*d <= diagonal, "ray {} distance {} exceeds the diagonal", i, d);
    }
}
