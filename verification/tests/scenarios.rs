use raycaster::compositor::{wall_color, WallColor};
use raycaster::map::{MapBuilder, MapContainer};
use raycaster::movement::{resolve_move, AxisMoves};
use raycaster::raycast::{cast_ray, CastOutcome, RayHit, Side, Step};

/// Five by five, a ring of walls of code 1 around nine open cells.
fn walled_room() -> MapContainer {
    MapContainer::load(MapBuilder {
        height: 5,
        width: 5,
        map: vec![
            vec![1, 1, 1, 1, 1],
            vec![1, 0, 0, 0, 1],
            vec![1, 0, 0, 0, 1],
            vec![1, 0, 0, 0, 1],
            vec![1, 1, 1, 1, 1],
        ],
    })
}

struct Player {
    x: f64,
    y: f64,
    dir_x: f64,
    dir_y: f64,
}

/// One step along the facing direction, as far as the grid allows.
fn step_forward(grid: &MapContainer, player: &mut Player, move_speed: f64) -> AxisMoves {
    let (dx, dy) = (player.dir_x * move_speed, player.dir_y * move_speed);
    let moves = resolve_move(
        grid,
        player.x.floor() as i64,
        player.y.floor() as i64,
        (player.x + dx).floor() as i64,
        (player.y + dy).floor() as i64,
    );
    if moves.x {
        player.x += dx;
    }
    if moves.y {
        player.y += dy;
    }
    moves
}

/// The distances to the first `count` crossings on one axis, as keys that
/// order as the distances do.
fn crossings(position: f64, direction: f64, count: usize) -> (Step, Vec<u64>) {
    let cell = position.floor();
    let delta = (1.0 / direction).abs();
    let (step, mut distance) = if direction < 0.0 {
        (Step::Negative, (position - cell) * delta)
    } else {
        (Step::Positive, (cell + 1.0 - position) * delta)
    };
    let mut keys = Vec::new();
    for _ in 0..count {
        keys.push((distance + 0.0).to_bits());
        distance += delta;
    }
    (step, keys)
}

/// The ray that leaves the player with camera offset `camera_x` on a camera
/// plane of `(plane_x, plane_y)`.
fn cast(grid: &MapContainer, player: &Player, plane: (f64, f64), camera_x: f64) -> CastOutcome {
    let (ray_x, ray_y) = (player.dir_x + plane.0 * camera_x, player.dir_y + plane.1 * camera_x);
    let (step_x, xs) = crossings(player.x, ray_x, grid.width);
    let (step_y, ys) = crossings(player.y, ray_y, grid.height);
    cast_ray(grid, player.x.floor() as i64, player.y.floor() as i64, step_x, step_y, &xs, &ys)
}

#[test]
fn forward_step_then_ray_down_the_facing_direction() {
    let grid = walled_room();
    let mut player = Player { x: 2.0, y: 2.0, dir_x: 1.0, dir_y: 0.0 };
    step_forward(&grid, &mut player, 0.5);
    assert_eq!((player.x, player.y), (2.5, 2.0));
    let outcome = cast(&grid, &player, (0.0, 0.9), 0.0);
    assert_eq!(
        outcome,
        CastOutcome::Hit(RayHit { map_x: 4, map_y: 2, cell_code: 1, side: Side::X })
    );
    match outcome {
        CastOutcome::Hit(hit) => assert_eq!(wall_color(hit.cell_code), WallColor::Red),
        other => panic!("no wall struck: {:?}", other),
    }
}

#[test]
fn fast_step_west_is_stopped_on_x_and_free_on_y() {
    let grid = walled_room();
    let mut player = Player { x: 1.0, y: 2.0, dir_x: -1.0, dir_y: 0.0 };
    let moves = step_forward(&grid, &mut player, 2.0);
    assert_eq!(moves, AxisMoves { x: false, y: true });
    assert_eq!((player.x, player.y), (1.0, 2.0));

    let mut player = Player { x: 1.0, y: 2.0, dir_x: -1.0, dir_y: 0.25 };
    let moves = step_forward(&grid, &mut player, 2.0);
    assert_eq!(moves, AxisMoves { x: false, y: true });
    assert_eq!((player.x, player.y), (1.0, 2.5));
}

#[test]
fn a_flat_wall_ahead_is_equally_far_in_every_column() {
    let grid = walled_room();
    let player = Player { x: 1.5, y: 2.5, dir_x: 1.0, dir_y: 0.0 };
    for camera_x in [-0.5, -0.25, 0.0, 0.125, 0.25, 0.5] {
        match cast(&grid, &player, (0.0, 0.66), camera_x) {
            CastOutcome::Hit(hit) => {
                assert_eq!(hit.side, Side::X);
                assert_eq!(hit.map_x, 4);
                assert_eq!(hit.cell_code, 1);
                let ray_x = player.dir_x + 0.0 * camera_x;
                let distance =
                    ((hit.map_x as f64 - player.x) + Step::Positive.face_offset() as f64) / ray_x;
                assert_eq!(distance, 2.5);
            }
            other => panic!("no wall struck: {:?}", other),
        }
    }
}

#[test]
fn a_player_who_keeps_walking_never_enters_a_wall() {
    let grid = walled_room();
    let mut player = Player { x: 2.0, y: 2.0, dir_x: 0.6, dir_y: -0.8 };
    for _ in 0..40 {
        step_forward(&grid, &mut player, 0.3);
        let cell = grid.probe(player.x.floor() as i64, player.y.floor() as i64);
        assert_eq!(cell, Some(0));
    }
    // It slid along the north wall into the north-east corner of the room.
    assert_eq!((player.x.floor() as i64, player.y.floor() as i64), (3, 1));
}
