use raycaster::map::{MapBuilder, MapContainer};
use raycaster::raycast::{cast_ray, CastOutcome, RayHit, Side, Step};

/// Five by five, a ring of walls of code 1 around nine open cells.
fn walled_room() -> MapContainer {
    MapContainer::load(MapBuilder {
        height: 5,
        width: 5,
        map: vec![
            vec![1, 1, 1, 1, 1],
            vec![1, 0, 0, 0, 1],
            vec![1, 0, 0, 0, 1],
            vec![1, 0, 0, 0, 1],
            vec![1, 1, 1, 1, 1],
        ],
    })
}

/// Three by three, no wall at all.
fn open_field() -> MapContainer {
    MapContainer::load(MapBuilder {
        height: 3,
        width: 3,
        map: vec![vec![0, 0, 0], vec![0, 0, 0], vec![0, 0, 0]],
    })
}

/// A number that orders as the distance does. Distances are never negative.
fn key(distance: f64) -> u64 {
    assert!(distance >= 0.0);
    (distance + 0.0).to_bits()
}

/// The distances along a ray to its successive crossings on one axis.
fn crossings(first: f64, delta: f64, count: usize) -> Vec<u64> {
    let mut list = Vec::new();
    let mut distance = first;
    for _ in 0..count {
        list.push(key(distance));
        distance += delta;
    }
    list
}

/// What a caller hands to `cast_ray` for a ray from `(px, py)` with
/// direction `(rx, ry)`, given `count` crossings per axis.
fn ray(px: f64, py: f64, rx: f64, ry: f64, count: usize) -> (i64, i64, Step, Step, Vec<u64>, Vec<u64>) {
    let (cell_x, cell_y) = (px.floor(), py.floor());
    let (delta_x, delta_y) = ((1.0 / rx).abs(), (1.0 / ry).abs());
    let (step_x, first_x) = if rx < 0.0 {
        (Step::Negative, (px - cell_x) * delta_x)
    } else {
        (Step::Positive, (cell_x + 1.0 - px) * delta_x)
    };
    let (step_y, first_y) = if ry < 0.0 {
        (Step::Negative, (py - cell_y) * delta_y)
    } else {
        (Step::Positive, (cell_y + 1.0 - py) * delta_y)
    };
    (
        cell_x as i64,
        cell_y as i64,
        step_x,
        step_y,
        crossings(first_x, delta_x, count),
        crossings(first_y, delta_y, count),
    )
}

fn cast(grid: &MapContainer, px: f64, py: f64, rx: f64, ry: f64, count: usize) -> CastOutcome {
    let (x, y, step_x, step_y, xs, ys) = ray(px, py, rx, ry, count);
    cast_ray(grid, x, y, step_x, step_y, &xs, &ys)
}

/// The distance to the struck face, measured along the facing direction.
fn perpendicular_distance(hit: &RayHit, px: f64, py: f64, rx: f64, ry: f64) -> f64 {
    let step = |r: f64| if r < 0.0 { Step::Negative } else { Step::Positive };
    match hit.side {
        Side::X => (hit.map_x as f64 - px + step(rx).face_offset() as f64) / rx,
        Side::Y => (hit.map_y as f64 - py + step(ry).face_offset() as f64) / ry,
    }
}

#[test]
fn steps_count_one_cell_each() {
    assert_eq!(Step::Positive.value(), 1);
    assert_eq!(Step::Negative.value(), -1);
}

#[test]
fn struck_face_is_the_near_one() {
    assert_eq!(Step::Positive.face_offset(), 0);
    assert_eq!(Step::Negative.face_offset(), 1);
}

#[test]
fn ray_straight_east_strikes_the_east_wall() {
    let grid = walled_room();
    let outcome = cast(&grid, 2.5, 2.0, 1.0, 0.0, 5);
    assert_eq!(
        outcome,
        CastOutcome::Hit(RayHit { map_x: 4, map_y: 2, cell_code: 1, side: Side::X })
    );
}

#[test]
fn ray_straight_east_from_the_start_position() {
    let grid = walled_room();
    let outcome = cast(&grid, 2.0, 2.0, 1.0, 0.0, 5);
    assert_eq!(
        outcome,
        CastOutcome::Hit(RayHit { map_x: 4, map_y: 2, cell_code: 1, side: Side::X })
    );
}

#[test]
fn straight_ray_measures_the_true_distance_to_the_wall() {
    let grid = walled_room();
    match cast(&grid, 2.5, 2.0, 1.0, 0.0, 5) {
        CastOutcome::Hit(hit) => {
            assert_eq!(perpendicular_distance(&hit, 2.5, 2.0, 1.0, 0.0), 1.5);
        }
        other => panic!("no wall struck: {:?}", other),
    }
    match cast(&grid, 1.5, 1.5, -1.0, 0.0, 5) {
        CastOutcome::Hit(hit) => {
            assert_eq!(hit, RayHit { map_x: 0, map_y: 1, cell_code: 1, side: Side::X });
            assert_eq!(perpendicular_distance(&hit, 1.5, 1.5, -1.0, 0.0), 0.5);
        }
        other => panic!("no wall struck: {:?}", other),
    }
    match cast(&grid, 2.25, 1.75, 0.0, 2.0, 5) {
        CastOutcome::Hit(hit) => {
            assert_eq!(hit, RayHit { map_x: 2, map_y: 4, cell_code: 1, side: Side::Y });
            assert_eq!(perpendicular_distance(&hit, 2.25, 1.75, 0.0, 2.0), 1.125);
        }
        other => panic!("no wall struck: {:?}", other),
    }
}

#[test]
fn equally_far_crossings_go_to_y() {
    let grid = walled_room();
    // From the middle of (2, 2) along the diagonal both crossings are always
    // equally far: Y, then X, then Y into the south wall.
    let outcome = cast(&grid, 2.5, 2.5, 1.0, 1.0, 5);
    assert_eq!(
        outcome,
        CastOutcome::Hit(RayHit { map_x: 3, map_y: 4, cell_code: 1, side: Side::Y })
    );
}

#[test]
fn the_nearer_crossing_is_taken_first() {
    let grid = walled_room();
    // Crossings on X at 0.5, on Y at 1.0: X first, into the west wall.
    let outcome = cast(&grid, 1.5, 1.5, -1.0, -0.5, 5);
    assert_eq!(
        outcome,
        CastOutcome::Hit(RayHit { map_x: 0, map_y: 1, cell_code: 1, side: Side::X })
    );
    // Crossings on X at 1.5, 2.5, on Y at 0.25: Y first, into the north wall.
    let outcome = cast(&grid, 1.5, 1.25, 1.0, -1.0, 5);
    assert_eq!(
        outcome,
        CastOutcome::Hit(RayHit { map_x: 1, map_y: 0, cell_code: 1, side: Side::Y })
    );
}

#[test]
fn the_walk_follows_the_order_of_the_crossings() {
    let grid = walled_room();
    // X at 10, 30, 50; Y at 20, 40, 60: X, Y, X into the east wall at (3+1, 2).
    let outcome =
        cast_ray(&grid, 2, 1, Step::Positive, Step::Positive, &vec![10, 30, 50], &vec![20, 40, 60]);
    assert_eq!(
        outcome,
        CastOutcome::Hit(RayHit { map_x: 4, map_y: 2, cell_code: 1, side: Side::X })
    );
    // Y at 5, 6, 7 comes first throughout: straight into the south wall.
    let outcome =
        cast_ray(&grid, 2, 1, Step::Positive, Step::Positive, &vec![10, 30, 50], &vec![5, 6, 7, 8]);
    assert_eq!(
        outcome,
        CastOutcome::Hit(RayHit { map_x: 2, map_y: 4, cell_code: 1, side: Side::Y })
    );
}

#[test]
fn the_code_of_the_struck_wall_is_reported() {
    let grid = MapContainer::load(MapBuilder {
        height: 3,
        width: 4,
        map: vec![vec![2, 2, 2, 2], vec![3, 0, 0, 5], vec![4, 4, 4, 4]],
    });
    assert_eq!(
        cast(&grid, 1.5, 1.5, 1.0, 0.0, 4),
        CastOutcome::Hit(RayHit { map_x: 3, map_y: 1, cell_code: 5, side: Side::X })
    );
    assert_eq!(
        cast(&grid, 1.5, 1.5, -1.0, 0.0, 4),
        CastOutcome::Hit(RayHit { map_x: 0, map_y: 1, cell_code: 3, side: Side::X })
    );
    assert_eq!(
        cast(&grid, 2.5, 1.5, 0.0, -1.0, 4),
        CastOutcome::Hit(RayHit { map_x: 2, map_y: 0, cell_code: 2, side: Side::Y })
    );
    assert_eq!(
        cast(&grid, 2.5, 1.5, 0.0, 1.0, 4),
        CastOutcome::Hit(RayHit { map_x: 2, map_y: 2, cell_code: 4, side: Side::Y })
    );
}

#[test]
fn a_direction_without_x_component_never_changes_column() {
    let grid = walled_room();
    for column in 1..4usize {
        let px = column as f64 + 0.5;
        assert_eq!(
            cast(&grid, px, 2.5, 0.0, 1.0, 5),
            CastOutcome::Hit(RayHit { map_x: column, map_y: 4, cell_code: 1, side: Side::Y })
        );
        assert_eq!(
            cast(&grid, px, 2.5, 0.0, -1.0, 5),
            CastOutcome::Hit(RayHit { map_x: column, map_y: 0, cell_code: 1, side: Side::Y })
        );
    }
}

#[test]
fn the_start_cell_is_not_inspected() {
    let grid = walled_room();
    // Standing in the wall cell (0, 2) and looking east: the first cell
    // inspected is (1, 2), the wall struck is the east one.
    assert_eq!(
        cast(&grid, 0.5, 2.5, 1.0, 0.0, 5),
        CastOutcome::Hit(RayHit { map_x: 4, map_y: 2, cell_code: 1, side: Side::X })
    );
}

#[test]
fn a_ray_that_leaves_the_grid_escapes() {
    let grid = open_field();
    assert_eq!(cast(&grid, 1.5, 1.5, 1.0, 0.0, 5), CastOutcome::Escaped);
    assert_eq!(cast(&grid, 1.5, 1.5, -1.0, 0.0, 5), CastOutcome::Escaped);
    assert_eq!(cast(&grid, 1.5, 1.5, 0.0, 1.0, 5), CastOutcome::Escaped);
    assert_eq!(cast(&grid, 1.5, 1.5, 0.3, -1.0, 5), CastOutcome::Escaped);
}

#[test]
fn a_ray_from_outside_may_enter_the_grid() {
    let mut grid = open_field();
    assert!(grid.set(1, 1, 6).is_ok());
    // One cell west of the grid, looking east.
    assert_eq!(
        cast(&grid, -0.5, 1.5, 1.0, 0.0, 5),
        CastOutcome::Hit(RayHit { map_x: 1, map_y: 1, cell_code: 6, side: Side::X })
    );
    // Farther out, the first cell inspected is outside.
    assert_eq!(cast(&grid, -4.5, 1.5, 1.0, 0.0, 5), CastOutcome::Escaped);
    assert_eq!(
        cast_ray(&grid, i64::MAX, 1, Step::Positive, Step::Positive, &vec![1], &vec![2]),
        CastOutcome::Escaped
    );
    assert_eq!(
        cast_ray(&grid, 1, i64::MIN, Step::Negative, Step::Negative, &vec![2], &vec![1]),
        CastOutcome::Escaped
    );
}

#[test]
fn too_few_crossings_leave_the_ray_unresolved() {
    let grid = walled_room();
    assert_eq!(cast(&grid, 1.5, 2.5, 1.0, 0.0, 0), CastOutcome::Unresolved);
    assert_eq!(cast(&grid, 1.5, 2.5, 1.0, 0.0, 1), CastOutcome::Unresolved);
    assert_eq!(cast(&grid, 1.5, 2.5, 1.0, 0.0, 2), CastOutcome::Unresolved);
    assert_eq!(
        cast(&grid, 1.5, 2.5, 1.0, 0.0, 3),
        CastOutcome::Hit(RayHit { map_x: 4, map_y: 2, cell_code: 1, side: Side::X })
    );
    assert_eq!(
        cast_ray(&grid, 1, 2, Step::Positive, Step::Positive, &vec![1, 2, 3], &vec![]),
        CastOutcome::Unresolved
    );
}

#[test]
fn in_a_walled_room_every_ray_strikes_a_wall() {
    let grid = walled_room();
    let orders: Vec<(Vec<u64>, Vec<u64>)> = vec![
        (vec![1, 2, 3, 4, 5], vec![6, 7, 8, 9, 10]),
        (vec![6, 7, 8, 9, 10], vec![1, 2, 3, 4, 5]),
        (vec![1, 3, 5, 7, 9], vec![2, 4, 6, 8, 10]),
        (vec![2, 4, 6, 8, 10], vec![1, 3, 5, 7, 9]),
        (vec![1, 1, 1, 1, 1], vec![1, 1, 1, 1, 1]),
        (vec![1, 2, 9, 9, 9], vec![3, 3, 3, 8, 8]),
        (vec![u64::MAX; 5], vec![0, 1, 2, 3, 4]),
        (vec![0, 1, 2, 3, 4], vec![u64::MAX; 5]),
    ];
    let steps = [Step::Negative, Step::Positive];
    for start_y in 1..4i64 {
        for start_x in 1..4i64 {
            for step_x in steps {
                for step_y in steps {
                    for (xs, ys) in &orders {
                        match cast_ray(&grid, start_x, start_y, step_x, step_y, xs, ys) {
                            CastOutcome::Hit(hit) => {
                                assert_ne!(hit.cell_code, 0);
                                assert_eq!(hit.cell_code, grid.get(hit.map_x, hit.map_y));
                                let on_ring = hit.map_x == 0 || hit.map_x == 4 || hit.map_y == 0
                                    || hit.map_y == 4;
                                assert!(on_ring);
                            }
                            other => panic!("no wall struck: {:?}", other),
                        }
                    }
                }
            }
        }
    }
}
