use grib::def::grib2::template::param_set::{
    Grid, LatLonGrid, ResolutionAndComponentFlags, ScanningMode,
};
use grib::{GridPointIndex, LatLons};
use grib_viewer::grid::{
    axis_is_readable, first_bigger_than_position, grid_axis, index_step, sample_points, GridIndex,
};

/// A regular 2 by 3 latitude/longitude grid from (0, 0) to (2, 1) degrees.
fn lat_lon_grid(scanning_mode: u8) -> LatLonGrid {
    LatLonGrid {
        grid: Grid {
            ni: 2,
            nj: 3,
            initial_production_domain_basic_angle: 0,
            basic_angle_subdivisions: 0,
            first_point_lat: 0,
            first_point_lon: 0,
            resolution_and_component_flags: ResolutionAndComponentFlags(0),
            last_point_lat: 2_000_000,
            last_point_lon: 1_000_000,
        },
        i_direction_inc: 1_000_000,
        j_direction_inc: 1_000_000,
        scanning_mode: ScanningMode(scanning_mode),
    }
}

#[test]
fn test_get_lat_lon_1d() {
    let grid = lat_lon_grid(0b01000000);
    let (ni, nj) = grid.grid_shape();
    let ij: Vec<(usize, usize)> = grid.ij().expect("get_lat_lon_1d failed").collect();
    let (lat_2d, lon_2d): (Vec<f32>, Vec<f32>) = grid
        .latlons()
        .expect("get_lat_lon_1d failed")
        .map(|(lat, lon)| (lat as f32, lon as f32))
        .unzip();
    assert!(axis_is_readable(&ij, lat_2d.len(), false, true, nj));
    assert!(axis_is_readable(&ij, lon_2d.len(), true, true, ni));
    let lat_1d = grid_axis(&ij, &lat_2d, false, true, nj, 0.0);
    let lon_1d = grid_axis(&ij, &lon_2d, true, true, ni, 0.0);
    assert_eq!(lat_1d, vec![0.0, 1.0, 2.0]);
    assert_eq!(lon_1d, vec![0.0, 1.0]);
}

#[test]
fn test_index_map() {
    let grid = lat_lon_grid(0b01110000);
    let (ni, nj) = grid.grid_shape();
    let ij: Vec<(usize, usize)> = grid.ij().expect("ij failed").collect();
    let map = GridIndex::new(&ij, ni, nj);
    for (idx, (i, j)) in ij.iter().enumerate() {
        assert_eq!(
            idx,
            map.get(*i, *j).expect(&format!("i: {}, j: {} not in map", i, j))
        );
    }
}

fn first_bigger_than(sorted: &[f32], target: f32) -> usize {
    let search = sorted.binary_search_by(|x| x.partial_cmp(&target).unwrap());
    first_bigger_than_position(search, sorted.len())
}

#[test]
fn test_first_bigger_than() {
    let array = vec![1.0f32, 2.0f32, 3.0f32, 4.0f32];
    assert_eq!(first_bigger_than(&array, 0.9f32), 1_usize);
    assert_eq!(first_bigger_than(&array, 1.0f32), 1_usize);
    assert_eq!(first_bigger_than(&array, 1.999f32), 1_usize);
    assert_eq!(first_bigger_than(&array, 2.5f32), 2_usize);
    assert_eq!(first_bigger_than(&array, 3.0f32), 2_usize);
    assert_eq!(first_bigger_than(&array, 3.5f32), 3_usize);
    assert_eq!(first_bigger_than(&array, 4.0f32), 3_usize);
    assert_eq!(first_bigger_than(&array, 4.1f32), 3_usize);
}

#[test]
fn first_bigger_than_position_cases() {
    assert_eq!(first_bigger_than_position(Ok(0), 4), 1);
    assert_eq!(first_bigger_than_position(Ok(3), 4), 3);
    assert_eq!(first_bigger_than_position(Err(0), 4), 1);
    assert_eq!(first_bigger_than_position(Err(4), 4), 3);
    assert_eq!(first_bigger_than_position(Err(2), 4), 2);
}

#[test]
fn grid_index_last_position_wins() {
    let ij = vec![(0, 0), (1, 0), (0, 1), (1, 1), (5, 5)];
    let index = GridIndex::new(&ij, 2, 2);
    assert_eq!(index.get(0, 0), Some(0));
    assert_eq!(index.get(1, 0), Some(1));
    assert_eq!(index.get(0, 1), Some(2));
    assert_eq!(index.get(1, 1), Some(3));
    assert_eq!(index.get(5, 5), None);
    let ij = vec![(0, 0), (0, 0)];
    let index = GridIndex::new(&ij, 1, 2);
    assert_eq!(index.get(0, 0), Some(1));
    assert_eq!(index.get(0, 1), None);
}

#[test]
fn grid_index_matches_enumeration() {
    // j runs fastest here, as with some scanning modes
    let mut ij = Vec::new();
    for i in 0..3 {
        for j in 0..4 {
            ij.push((i, j));
        }
    }
    let index = GridIndex::new(&ij, 3, 4);
    for (idx, (i, j)) in ij.iter().enumerate() {
        assert_eq!(index.get(*i, *j), Some(idx));
    }
}

#[test]
fn axes_of_a_grid() {
    // a 2 (i) by 3 (j) grid, i consecutive
    let ij = vec![(0, 0), (1, 0), (0, 1), (1, 1), (0, 2), (1, 2)];
    let lat_2d = vec![0.0f32, 0.0, 1.0, 1.0, 2.0, 2.0];
    let lon_2d = vec![0.0f32, 1.0, 0.0, 1.0, 0.0, 1.0];
    assert!(axis_is_readable(&ij, lat_2d.len(), false, true, 3));
    assert!(axis_is_readable(&ij, lon_2d.len(), true, true, 2));
    assert_eq!(grid_axis(&ij, &lat_2d, false, true, 3, 0.0), vec![0.0, 1.0, 2.0]);
    assert_eq!(grid_axis(&ij, &lon_2d, true, true, 2, 0.0), vec![0.0, 1.0]);
    // read at the axis position instead of the point's position
    assert_eq!(grid_axis(&ij, &lat_2d, false, false, 3, 9.0), vec![0.0, 0.0, 1.0]);
    // an axis too short for the points
    assert!(!axis_is_readable(&ij, lat_2d.len(), false, true, 2));
    assert!(!axis_is_readable(&ij, 1, true, true, 2));
}

#[test]
fn index_steps() {
    assert_eq!(index_step(10, 12), 1);
    assert_eq!(index_step(10, 10), 1);
    assert_eq!(index_step(10, 9), 2);
    assert_eq!(index_step(10, 0), 1024);
    assert_eq!(index_step(200, 0), usize::MAX);
    assert_eq!(index_step(i64::MAX, 0), usize::MAX);
    for e in 0..70i64 {
        let expected = std::cmp::max(1usize, 2f32.powf(e as f32) as usize);
        assert_eq!(index_step(e, 0), expected, "exponent {}", e);
    }
    for e in -5..0i64 {
        let expected = std::cmp::max(1usize, 2f32.powf(e as f32) as usize);
        assert_eq!(index_step(e, 0), expected, "exponent {}", e);
    }
}

#[test]
fn sample_points_like_step_by() {
    for (n_i, n_j, step) in [(5, 3, 2), (4, 4, 1), (0, 3, 1), (7, 7, 3), (3, 2, 10)] {
        let mut expected = Vec::new();
        for i in (0..n_i).step_by(step) {
            for j in (0..n_j).step_by(step) {
                expected.push((i, j));
            }
        }
        assert_eq!(sample_points(n_i, n_j, step), expected);
    }
    assert_eq!(sample_points(3, 2, usize::MAX), vec![(0, 0)]);
}
