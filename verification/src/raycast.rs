//! Grid traversal: which wall a ray strikes first.
//!
//! A ray leaves a cell and crosses grid lines one at a time. The caller knows
//! how far along the ray each crossing lies; this module only needs the order
//! of those distances. It walks the grid one cell per crossing, always taking
//! the axis whose next grid line is nearer, and stops at the first cell that
//! holds a wall or lies outside the grid.

use vstd::prelude::*;
use crate::map::MapContainer;

verus! {

/// The axis whose grid line a ray crossed last.
#[derive(Clone, Copy, Debug, PartialEq, Eq, Structural)]
pub enum Side {
    X,
    Y,
}

/// The way a ray moves along one axis: towards smaller or larger coordinates.
#[derive(Clone, Copy, Debug, PartialEq, Eq, Structural)]
pub enum Step {
    Negative,
    Positive,
}

impl Step {
    /// The change of the cell coordinate at one crossing: `-1` or `1`.
    pub open spec fn delta(self) -> int {
        match self {
            Step::Negative => -1,
            Step::Positive => 1,
        }
    }

    /// The change of the cell coordinate at one crossing, as a number.
    pub fn value(self) -> (v: i64)
        ensures
            v == self.delta(),
    {
        match self {
            Step::Negative => -1,
            Step::Positive => 1,
        }
    }

    /// Where the face that the ray strikes lies within the struck cell,
    /// measured from the cell's own coordinate: `(1 - delta) / 2`. A ray that
    /// moves towards larger coordinates meets the near face at offset `0`, one
    /// that moves towards smaller coordinates meets the far face at offset `1`.
    pub fn face_offset(self) -> (offset: i64)
        ensures
            offset == (1 - self.delta()) / 2,
    {
        match self {
            Step::Negative => 1,
            Step::Positive => 0,
        }
    }
}

/// The wall that a ray struck.
#[derive(Clone, Copy, Debug, PartialEq, Eq, Structural)]
pub struct RayHit {
    /// Column of the struck cell.
    pub map_x: usize,
    /// Row of the struck cell.
    pub map_y: usize,
    /// Code of the struck cell; never `0`.
    pub cell_code: u8,
    /// Axis of the grid line that the ray crossed to enter the struck cell.
    pub side: Side,
}

/// How a traversal ended.
#[derive(Clone, Copy, Debug, PartialEq, Eq, Structural)]
pub enum CastOutcome {
    /// The ray struck a wall.
    Hit(RayHit),
    /// The ray left the grid without striking a wall.
    Escaped,
    /// The crossings that the caller supplied ran out while the ray was still
    /// travelling through open cells.
    Unresolved,
}

/// The axis along which a ray advances next, given the distance to its next
/// crossing on each axis: the nearer one, and `Y` when they are equally far.
pub open spec fn crossing_side(x_distance: u64, y_distance: u64) -> Side {
    if x_distance < y_distance {
        Side::X
    } else {
        Side::Y
    }
}

/// The outcome of a traversal that stands in cell `(x, y)` and has already
/// used up `i` crossings of vertical grid lines and `j` of horizontal ones.
///
/// `xs[k]` orders the ray's `k`-th crossing of a vertical grid line among all
/// its crossings, and `ys[k]` does so for the horizontal ones. Each round
/// moves one cell along the axis of the nearer crossing and inspects the cell
/// it lands in.
pub open spec fn ray_walk(
    grid: &MapContainer,
    x: int,
    y: int,
    step_x: Step,
    step_y: Step,
    xs: Seq<u64>,
    ys: Seq<u64>,
    i: nat,
    j: nat,
) -> CastOutcome
    decreases xs.len() + ys.len() - i - j,
{
    if i >= xs.len() || j >= ys.len() {
        CastOutcome::Unresolved
    } else {
        let side = crossing_side(xs[i as int], ys[j as int]);
        let next_x = if side is X { x + step_x.delta() } else { x };
        let next_y = if side is X { y } else { y + step_y.delta() };
        let next_i = if side is X { i + 1 } else { i };
        let next_j = if side is X { j } else { j + 1 };
        if !grid.in_bounds(next_x, next_y) {
            CastOutcome::Escaped
        } else if grid.cell(next_x, next_y) != 0 {
            CastOutcome::Hit(
                (RayHit {
                    map_x: next_x as usize,
                    map_y: next_y as usize,
                    cell_code: grid.cell(next_x, next_y),
                    side,
                }),
            )
        } else {
            ray_walk(grid, next_x, next_y, step_x, step_y, xs, ys, next_i as nat, next_j as nat)
        }
    }
}

/// Casts one ray from the cell `(start_x, start_y)`.
///
/// `x_crossings[k]` and `y_crossings[k]` give the distance along the ray to
/// its `k`-th crossing of a vertical and of a horizontal grid line, in any
/// unit in which a larger number means a farther crossing. The start cell
/// itself is not inspected. A cell outside the grid ends the traversal with
/// `Escaped`; it is never looked up.
///
/// The traversal ends after at most one round per crossing supplied. From a
/// cell of the grid, as many crossings per axis as the grid has cells along
/// it are enough to reach a wall or the edge; in a grid with a solid outer
/// ring and from an open cell, they always lead to a wall.
pub fn cast_ray(
    grid: &MapContainer,
    start_x: i64,
    start_y: i64,
    step_x: Step,
    step_y: Step,
    x_crossings: &Vec<u64>,
    y_crossings: &Vec<u64>,
) -> (outcome: CastOutcome)
    requires
        grid.well_formed(),
    ensures
        outcome == ray_walk(
            grid,
            start_x as int,
            start_y as int,
            step_x,
            step_y,
            x_crossings@,
            y_crossings@,
            0,
            0,
        ),
        outcome matches CastOutcome::Hit(hit) ==> hit.cell_code != 0 && grid.is_wall(
            hit.map_x as int,
            hit.map_y as int,
        ) && hit.cell_code == grid.cell(hit.map_x as int, hit.map_y as int),
        grid.in_bounds(start_x as int, start_y as int) && x_crossings.len() >= grid.width
            && y_crossings.len() >= grid.height ==> !(outcome is Unresolved),
        grid.enclosed() && grid.is_open(start_x as int, start_y as int) && x_crossings.len()
            >= grid.width && y_crossings.len() >= grid.height ==> outcome is Hit,
{
    proof {
        if grid.in_bounds(start_x as int, start_y as int) && x_crossings.len() >= grid.width
            && y_crossings.len() >= grid.height {
            lemma_cast_resolves(
                grid,
                start_x as int,
                start_y as int,
                step_x,
                step_y,
                x_crossings@,
                y_crossings@,
            );
            if grid.enclosed() && grid.is_open(start_x as int, start_y as int) {
                lemma_enclosed_cast_hits(
                    grid,
                    start_x as int,
                    start_y as int,
                    step_x,
                    step_y,
                    x_crossings@,
                    y_crossings@,
                );
            }
        }
    }
    let mut x: i128 = start_x as i128;
    let mut y: i128 = start_y as i128;
    let mut i: usize = 0;
    let mut j: usize = 0;
    while i < x_crossings.len() && j < y_crossings.len()
        invariant
            grid.well_formed(),
            i <= x_crossings.len(),
            j <= y_crossings.len(),
            start_x - i <= x <= start_x + i,
            start_y - j <= y <= start_y + j,
            ray_walk(
                grid,
                x as int,
                y as int,
                step_x,
                step_y,
                x_crossings@,
                y_crossings@,
                i as nat,
                j as nat,
            ) == ray_walk(
                grid,
                start_x as int,
                start_y as int,
                step_x,
                step_y,
                x_crossings@,
                y_crossings@,
                0,
                0,
            ),
            grid.enclosed() && grid.is_open(start_x as int, start_y as int) && x_crossings.len()
                >= grid.width && y_crossings.len() >= grid.height ==> ray_walk(
                grid,
                start_x as int,
                start_y as int,
                step_x,
                step_y,
                x_crossings@,
                y_crossings@,
                0,
                0,
            ) is Hit,
        decreases x_crossings.len() + y_crossings.len() - i - j,
    {
        let side = if x_crossings[i] < y_crossings[j] {
            Side::X
        } else {
            Side::Y
        };
        match side {
            Side::X => {
                x = x + step_x.value() as i128;
                i = i + 1;
            },
            Side::Y => {
                y = y + step_y.value() as i128;
                j = j + 1;
            },
        }
        match grid.probe_wide(x, y) {
            None => {
                return CastOutcome::Escaped;
            },
            Some(code) => {
                if code != 0 {
                    return CastOutcome::Hit(
                        RayHit { map_x: x as usize, map_y: y as usize, cell_code: code, side },
                    );
                }
            },
        }
    }
    CastOutcome::Unresolved
}

/// How many more cells a traversal can advance along an axis of the given
/// extent before it leaves the grid, standing at coordinate `at`.
pub open spec fn room(extent: int, at: int, step: Step) -> int {
    match step {
        Step::Negative => at,
        Step::Positive => extent - 1 - at,
    }
}

/// A traversal that stands inside the grid and still has more crossings on
/// each axis than it has room to advance never runs out of crossings: it ends
/// at a wall or at the edge of the grid.
pub proof fn lemma_walk_resolves(
    grid: &MapContainer,
    x: int,
    y: int,
    step_x: Step,
    step_y: Step,
    xs: Seq<u64>,
    ys: Seq<u64>,
    i: nat,
    j: nat,
)
    requires
        grid.in_bounds(x, y),
        xs.len() - i > room(grid.width as int, x, step_x),
        ys.len() - j > room(grid.height as int, y, step_y),
    ensures
        !(ray_walk(grid, x, y, step_x, step_y, xs, ys, i, j) is Unresolved),
    decreases xs.len() + ys.len() - i - j,
{
    let side = crossing_side(xs[i as int], ys[j as int]);
    let next_x = if side is X { x + step_x.delta() } else { x };
    let next_y = if side is X { y } else { y + step_y.delta() };
    let next_i = if side is X { i + 1 } else { i };
    let next_j = if side is X { j } else { j + 1 };
    if grid.is_open(next_x, next_y) {
        lemma_walk_resolves(
            grid,
            next_x,
            next_y,
            step_x,
            step_y,
            xs,
            ys,
            next_i as nat,
            next_j as nat,
        );
    }
}

/// A ray cast from a cell of the grid, with at least as many crossings per
/// axis as the grid has cells along it, always comes to an end: it strikes a
/// wall or leaves the grid.
pub proof fn lemma_cast_resolves(
    grid: &MapContainer,
    start_x: int,
    start_y: int,
    step_x: Step,
    step_y: Step,
    xs: Seq<u64>,
    ys: Seq<u64>,
)
    requires
        grid.in_bounds(start_x, start_y),
        xs.len() >= grid.width,
        ys.len() >= grid.height,
    ensures
        !(ray_walk(grid, start_x, start_y, step_x, step_y, xs, ys, 0, 0) is Unresolved),
{
    lemma_walk_resolves(grid, start_x, start_y, step_x, step_y, xs, ys, 0, 0);
}

/// In a grid whose outer ring is solid, a traversal that stands in an open
/// cell never leaves the grid.
pub proof fn lemma_enclosed_walk_stays_inside(
    grid: &MapContainer,
    x: int,
    y: int,
    step_x: Step,
    step_y: Step,
    xs: Seq<u64>,
    ys: Seq<u64>,
    i: nat,
    j: nat,
)
    requires
        grid.enclosed(),
        grid.is_open(x, y),
    ensures
        !(ray_walk(grid, x, y, step_x, step_y, xs, ys, i, j) is Escaped),
    decreases xs.len() + ys.len() - i - j,
{
    if i < xs.len() && j < ys.len() {
        let side = crossing_side(xs[i as int], ys[j as int]);
        let next_x = if side is X { x + step_x.delta() } else { x };
        let next_y = if side is X { y } else { y + step_y.delta() };
        let next_i = if side is X { i + 1 } else { i };
        let next_j = if side is X { j } else { j + 1 };
        // An open cell is not on the solid ring, so each neighbour is a cell.
        assert(grid.cell(x, y) == 0);
        assert(grid.in_bounds(next_x, next_y));
        if grid.is_open(next_x, next_y) {
            lemma_enclosed_walk_stays_inside(
                grid,
                next_x,
                next_y,
                step_x,
                step_y,
                xs,
                ys,
                next_i as nat,
                next_j as nat,
            );
        }
    }
}

/// In a grid whose outer ring is solid, every ray cast from an open cell
/// strikes a wall, whatever its direction and whatever the order of its
/// crossings, once it is given as many crossings per axis as the grid has
/// cells along it.
pub proof fn lemma_enclosed_cast_hits(
    grid: &MapContainer,
    start_x: int,
    start_y: int,
    step_x: Step,
    step_y: Step,
    xs: Seq<u64>,
    ys: Seq<u64>,
)
    requires
        grid.enclosed(),
        grid.is_open(start_x, start_y),
        xs.len() >= grid.width,
        ys.len() >= grid.height,
    ensures
        ray_walk(grid, start_x, start_y, step_x, step_y, xs, ys, 0, 0) is Hit,
{
    lemma_cast_resolves(grid, start_x, start_y, step_x, step_y, xs, ys);
    lemma_enclosed_walk_stays_inside(grid, start_x, start_y, step_x, step_y, xs, ys, 0, 0);
}

/// How many vertical and how many horizontal grid lines a ray has crossed
/// after `rounds` rounds, as long as it was not stopped: each round takes
/// the nearer of the two next crossings.
pub open spec fn crossed(xs: Seq<u64>, ys: Seq<u64>, rounds: nat) -> (nat, nat)
    decreases rounds,
{
    if rounds == 0 {
        (0, 0)
    } else {
        let (i, j) = crossed(xs, ys, (rounds - 1) as nat);
        if i >= xs.len() || j >= ys.len() {
            (i, j)
        } else if crossing_side(xs[i as int], ys[j as int]) is X {
            ((i + 1) as nat, j)
        } else {
            (i, (j + 1) as nat)
        }
    }
}

/// The cell in which a ray from `(start_x, start_y)` stands after `rounds`
/// rounds, as long as it was not stopped.
pub open spec fn path_cell(
    start_x: int,
    start_y: int,
    step_x: Step,
    step_y: Step,
    xs: Seq<u64>,
    ys: Seq<u64>,
    rounds: nat,
) -> (int, int) {
    let (i, j) = crossed(xs, ys, rounds);
    (start_x + step_x.delta() * i, start_y + step_y.delta() * j)
}

/// A traversal that has come `rounds` rounds along its path through open
/// cells, and that ends at a wall, ends at the first cell of the path that
/// is not open. Returns the number of rounds after which it does.
pub proof fn lemma_walk_follows_path(
    grid: &MapContainer,
    start_x: int,
    start_y: int,
    step_x: Step,
    step_y: Step,
    xs: Seq<u64>,
    ys: Seq<u64>,
    rounds: nat,
) -> (last: nat)
    requires
        forall|m: nat|
            1 <= m <= rounds ==> {
                let cell = #[trigger] path_cell(start_x, start_y, step_x, step_y, xs, ys, m);
                grid.is_open(cell.0, cell.1)
            },
        ({
            let cell = path_cell(start_x, start_y, step_x, step_y, xs, ys, rounds);
            let (i, j) = crossed(xs, ys, rounds);
            ray_walk(grid, cell.0, cell.1, step_x, step_y, xs, ys, i, j) is Hit
        }),
    ensures
        last > rounds,
        forall|m: nat|
            1 <= m < last ==> {
                let cell = #[trigger] path_cell(start_x, start_y, step_x, step_y, xs, ys, m);
                grid.is_open(cell.0, cell.1)
            },
        ({
            let cell = path_cell(start_x, start_y, step_x, step_y, xs, ys, rounds);
            let (i, j) = crossed(xs, ys, rounds);
            let struck = path_cell(start_x, start_y, step_x, step_y, xs, ys, last);
            let hit = ray_walk(grid, cell.0, cell.1, step_x, step_y, xs, ys, i, j)->Hit_0;
            &&& grid.is_wall(struck.0, struck.1)
            &&& hit.map_x == struck.0
            &&& hit.map_y == struck.1
        }),
    decreases xs.len() + ys.len() - crossed(xs, ys, rounds).0 - crossed(xs, ys, rounds).1,
{
    let (i, j) = crossed(xs, ys, rounds);
    let next = path_cell(start_x, start_y, step_x, step_y, xs, ys, rounds + 1);
    let (next_i, next_j) = crossed(xs, ys, rounds + 1);
    assert(step_x.delta() * (i + 1) == step_x.delta() * i + step_x.delta()) by (nonlinear_arith);
    assert(step_y.delta() * (j + 1) == step_y.delta() * j + step_y.delta()) by (nonlinear_arith);
    if grid.is_open(next.0, next.1) {
        assert forall|m: nat| 1 <= m <= rounds + 1 implies {
            let cell = #[trigger] path_cell(start_x, start_y, step_x, step_y, xs, ys, m);
            grid.is_open(cell.0, cell.1)
        } by {
            if m == rounds + 1 {
            }
        }
        lemma_walk_follows_path(grid, start_x, start_y, step_x, step_y, xs, ys, rounds + 1)
    } else {
        rounds + 1
    }
}

/// A ray never passes through a wall: the wall it strikes is the first cell
/// on its path, after the cell it starts from, that is not open.
pub proof fn lemma_hit_is_first_wall_on_path(
    grid: &MapContainer,
    start_x: int,
    start_y: int,
    step_x: Step,
    step_y: Step,
    xs: Seq<u64>,
    ys: Seq<u64>,
)
    requires
        ray_walk(grid, start_x, start_y, step_x, step_y, xs, ys, 0, 0) is Hit,
    ensures
        exists|last: nat|
            {
                let struck = #[trigger] path_cell(start_x, start_y, step_x, step_y, xs, ys, last);
                let hit = ray_walk(grid, start_x, start_y, step_x, step_y, xs, ys, 0, 0)->Hit_0;
                &&& last >= 1
                &&& grid.is_wall(struck.0, struck.1)
                &&& hit.map_x == struck.0
                &&& hit.map_y == struck.1
                &&& forall|m: nat|
                    1 <= m < last ==> {
                        let cell = #[trigger] path_cell(
                            start_x,
                            start_y,
                            step_x,
                            step_y,
                            xs,
                            ys,
                            m,
                        );
                        grid.is_open(cell.0, cell.1)
                    }
            },
{
    let (i, j) = crossed(xs, ys, 0);
    assert(i == 0 && j == 0);
    assert(step_x.delta() * i == 0 && step_y.delta() * j == 0) by (nonlinear_arith)
        requires
            i == 0,
            j == 0,
    ;
    assert(path_cell(start_x, start_y, step_x, step_y, xs, ys, 0) == (start_x, start_y));
    let last = lemma_walk_follows_path(grid, start_x, start_y, step_x, step_y, xs, ys, 0);
    let struck = path_cell(start_x, start_y, step_x, step_y, xs, ys, last);
    assert(grid.is_wall(struck.0, struck.1));
}

/// A ray that runs along the Y axis never changes column: when every
/// crossing of a vertical grid line is at least as far as every crossing of a
/// horizontal one, as with a direction whose X component is zero, the
/// traversal advances along Y only.
pub proof fn lemma_far_x_crossings_are_never_taken(
    grid: &MapContainer,
    x: int,
    y: int,
    step_x: Step,
    step_y: Step,
    xs: Seq<u64>,
    ys: Seq<u64>,
    i: nat,
    j: nat,
)
    requires
        grid.in_bounds(x, y),
        forall|k: int, m: int| 0 <= k < xs.len() && 0 <= m < ys.len() ==> xs[k] >= ys[m],
    ensures
        ray_walk(grid, x, y, step_x, step_y, xs, ys, i, j) matches CastOutcome::Hit(hit) ==> hit.side
            is Y && hit.map_x == x,
    decreases xs.len() + ys.len() - i - j,
{
    if i < xs.len() && j < ys.len() {
        let next_y = y + step_y.delta();
        if grid.is_open(x, next_y) {
            lemma_far_x_crossings_are_never_taken(
                grid,
                x,
                next_y,
                step_x,
                step_y,
                xs,
                ys,
                i,
                j + 1,
            );
        }
    }
}

/// A ray that runs along the X axis never changes row: when every crossing of
/// a vertical grid line is nearer than every crossing of a horizontal one, as
/// with a direction whose Y component is zero, the traversal advances along X
/// only.
pub proof fn lemma_far_y_crossings_are_never_taken(
    grid: &MapContainer,
    x: int,
    y: int,
    step_x: Step,
    step_y: Step,
    xs: Seq<u64>,
    ys: Seq<u64>,
    i: nat,
    j: nat,
)
    requires
        grid.in_bounds(x, y),
        forall|k: int, m: int| 0 <= k < xs.len() && 0 <= m < ys.len() ==> xs[k] < ys[m],
    ensures
        ray_walk(grid, x, y, step_x, step_y, xs, ys, i, j) matches CastOutcome::Hit(hit) ==> hit.side
            is X && hit.map_y == y,
    decreases xs.len() + ys.len() - i - j,
{
    if i < xs.len() && j < ys.len() {
        let next_x = x + step_x.delta();
        if grid.is_open(next_x, y) {
            lemma_far_y_crossings_are_never_taken(
                grid,
                next_x,
                y,
                step_x,
                step_y,
                xs,
                ys,
                i + 1,
                j,
            );
        }
    }
}

/// A traversal reports only walls: the struck cell lies inside the grid, its
/// code is the one reported, and that code is never `0`.
pub proof fn lemma_hit_is_wall(
    grid: &MapContainer,
    x: int,
    y: int,
    step_x: Step,
    step_y: Step,
    xs: Seq<u64>,
    ys: Seq<u64>,
    i: nat,
    j: nat,
)
    ensures
        ray_walk(grid, x, y, step_x, step_y, xs, ys, i, j) matches CastOutcome::Hit(hit) ==> {
            &&& grid.is_wall(hit.map_x as int, hit.map_y as int)
            &&& hit.cell_code == grid.cell(hit.map_x as int, hit.map_y as int)
            &&& hit.cell_code != 0
        },
    decreases xs.len() + ys.len() - i - j,
{
    if i < xs.len() && j < ys.len() {
        let side = crossing_side(xs[i as int], ys[j as int]);
        let next_x = if side is X { x + step_x.delta() } else { x };
        let next_y = if side is X { y } else { y + step_y.delta() };
        let next_i = if side is X { i + 1 } else { i };
        let next_j = if side is X { j } else { j + 1 };
        if grid.is_open(next_x, next_y) {
            lemma_hit_is_wall(
                grid,
                next_x,
                next_y,
                step_x,
                step_y,
                xs,
                ys,
                next_i as nat,
                next_j as nat,
            );
        }
    }
}

} // verus!
