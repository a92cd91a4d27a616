//! Player movement: which keys are held, what they ask for, and how much of a
//! step the grid lets through.
//!
//! A step is checked one axis at a time, X before Y, so that a player who
//! walks diagonally into a wall slides along it instead of stopping dead.

use vstd::prelude::*;
use crate::map::MapContainer;

verus! {

/// Index in the key table of the key that moves the player forward (`W`).
pub const KEY_FORWARD: usize = 87;

/// Index in the key table of the key that moves the player backward (`S`).
pub const KEY_BACKWARD: usize = 83;

/// Index in the key table of the key that turns the player left (`A`).
pub const KEY_ROTATE_LEFT: usize = 65;

/// Index in the key table of the key that turns the player right (`D`).
pub const KEY_ROTATE_RIGHT: usize = 68;

/// One thing a held key asks of the player.
#[derive(Clone, Copy, Debug, PartialEq, Eq, Structural)]
pub enum Action {
    MoveForward,
    MoveBackward,
    RotateLeft,
    RotateRight,
}

impl Action {
    /// The sign with which the action applies its speed: a forward move adds
    /// the facing direction and a backward move subtracts it; a right turn
    /// rotates by the positive angle and a left turn by the negative one.
    pub open spec fn sign(self) -> int {
        match self {
            Action::MoveForward => 1,
            Action::MoveBackward => -1,
            Action::RotateLeft => -1,
            Action::RotateRight => 1,
        }
    }

    /// The sign of the action, as a number.
    pub fn signum(self) -> (s: i64)
        ensures
            s == self.sign(),
    {
        match self {
            Action::MoveForward => 1,
            Action::MoveBackward => -1,
            Action::RotateLeft => -1,
            Action::RotateRight => 1,
        }
    }
}

/// Which of the four movement keys are held, sampled once per frame.
#[derive(Clone, Copy, Debug, PartialEq, Eq, Structural)]
pub struct KeyState {
    pub forward: bool,
    pub backward: bool,
    pub rotate_left: bool,
    pub rotate_right: bool,
}

impl KeyState {
    /// The snapshot that a table of keys, indexed by key code, stands for.
    pub open spec fn of_table(keys: Seq<bool>) -> KeyState {
        KeyState {
            forward: keys[KEY_FORWARD as int],
            backward: keys[KEY_BACKWARD as int],
            rotate_left: keys[KEY_ROTATE_LEFT as int],
            rotate_right: keys[KEY_ROTATE_RIGHT as int],
        }
    }

    /// Reads the four movement keys out of a table indexed by key code.
    pub fn from_key_table(keys: &Vec<bool>) -> (state: KeyState)
        requires
            keys.len() > KEY_FORWARD,
        ensures
            state == KeyState::of_table(keys@),
    {
        KeyState {
            forward: keys[KEY_FORWARD],
            backward: keys[KEY_BACKWARD],
            rotate_left: keys[KEY_ROTATE_LEFT],
            rotate_right: keys[KEY_ROTATE_RIGHT],
        }
    }

    /// What the held keys ask for, in the order in which it is carried out:
    /// forward, backward, left turn, right turn. Keys combine freely; two
    /// opposite keys both act, one after the other.
    pub open spec fn plan(self) -> Seq<Action> {
        (if self.forward {
            seq![Action::MoveForward]
        } else {
            Seq::empty()
        }) + (if self.backward {
            seq![Action::MoveBackward]
        } else {
            Seq::empty()
        }) + (if self.rotate_left {
            seq![Action::RotateLeft]
        } else {
            Seq::empty()
        }) + (if self.rotate_right {
            seq![Action::RotateRight]
        } else {
            Seq::empty()
        })
    }

    /// Lists the actions of this frame in the order in which to carry them
    /// out.
    pub fn actions(&self) -> (list: Vec<Action>)
        ensures
            list@ == self.plan(),
    {
        let mut list: Vec<Action> = Vec::new();
        if self.forward {
            list.push(Action::MoveForward);
        }
        if self.backward {
            list.push(Action::MoveBackward);
        }
        if self.rotate_left {
            list.push(Action::RotateLeft);
        }
        if self.rotate_right {
            list.push(Action::RotateRight);
        }
        assert(list@ =~= self.plan());
        list
    }
}

/// Which components of a step are carried out.
#[derive(Clone, Copy, Debug, PartialEq, Eq, Structural)]
pub struct AxisMoves {
    /// The X component of the step is added to the position.
    pub x: bool,
    /// The Y component of the step is added to the position.
    pub y: bool,
}

/// The column of the cell in which the player stands once the X component of
/// a step has been decided.
pub open spec fn column_after_x(grid: &MapContainer, cell_x: int, cell_y: int, target_x: int) -> int {
    if grid.is_open(target_x, cell_y) {
        target_x
    } else {
        cell_x
    }
}

/// The collision rule. The player stands in cell `(cell_x, cell_y)`; the step
/// alone would carry its X coordinate into column `target_x` and its Y
/// coordinate into row `target_y`.
///
/// The X component is carried out exactly when the cell it leads to, in the
/// player's present row, is an open cell of the grid. The Y component is then
/// judged in the same way from the column in which the player stands after
/// that. A cell outside the grid blocks like a wall.
pub open spec fn allowed_moves(
    grid: &MapContainer,
    cell_x: int,
    cell_y: int,
    target_x: int,
    target_y: int,
) -> AxisMoves {
    AxisMoves {
        x: grid.is_open(target_x, cell_y),
        y: grid.is_open(column_after_x(grid, cell_x, cell_y, target_x), target_y),
    }
}

/// Decides which components of a step the grid lets through.
pub fn resolve_move(
    grid: &MapContainer,
    cell_x: i64,
    cell_y: i64,
    target_x: i64,
    target_y: i64,
) -> (moves: AxisMoves)
    requires
        grid.well_formed(),
    ensures
        moves == allowed_moves(
            grid,
            cell_x as int,
            cell_y as int,
            target_x as int,
            target_y as int,
        ),
{
    let x = is_passable(grid, target_x, cell_y);
    let column: i64 = if x {
        target_x
    } else {
        cell_x
    };
    let y = is_passable(grid, column, target_y);
    AxisMoves { x, y }
}

/// Tells whether the player may stand in cell `(x, y)`: it must be a cell of
/// the grid, and hold no wall.
pub fn is_passable(grid: &MapContainer, x: i64, y: i64) -> (open: bool)
    requires
        grid.well_formed(),
    ensures
        open == grid.is_open(x as int, y as int),
{
    match grid.probe(x, y) {
        Some(code) => code == 0,
        None => false,
    }
}

/// No false collision: a component of a step whose destination is an open
/// cell is always carried out.
pub proof fn lemma_open_destination_is_reached(
    grid: &MapContainer,
    cell_x: int,
    cell_y: int,
    target_x: int,
    target_y: int,
)
    ensures
        grid.is_open(target_x, cell_y) ==> allowed_moves(
            grid,
            cell_x,
            cell_y,
            target_x,
            target_y,
        ).x,
        grid.is_open(column_after_x(grid, cell_x, cell_y, target_x), target_y) ==> allowed_moves(
            grid,
            cell_x,
            cell_y,
            target_x,
            target_y,
        ).y,
{
}

/// Collision holds, and the player slides: a component whose destination is
/// a wall, or lies outside the grid, is dropped, and the other component is
/// judged by its own destination alone.
pub proof fn lemma_blocked_axis_leaves_other_free(
    grid: &MapContainer,
    cell_x: int,
    cell_y: int,
    target_x: int,
    target_y: int,
)
    ensures
        !grid.is_open(target_x, cell_y) ==> {
            let moves = allowed_moves(grid, cell_x, cell_y, target_x, target_y);
            !moves.x && (moves.y <==> grid.is_open(cell_x, target_y))
        },
        !grid.is_open(column_after_x(grid, cell_x, cell_y, target_x), target_y) ==> {
            let moves = allowed_moves(grid, cell_x, cell_y, target_x, target_y);
            !moves.y && (moves.x <==> grid.is_open(target_x, cell_y))
        },
{
}

/// A step never carries the player into a wall: if the player stands in an
/// open cell, the cell it stands in after the step is open too.
pub proof fn lemma_move_ends_in_open_cell(
    grid: &MapContainer,
    cell_x: int,
    cell_y: int,
    target_x: int,
    target_y: int,
)
    requires
        grid.is_open(cell_x, cell_y),
    ensures
        ({
            let moves = allowed_moves(grid, cell_x, cell_y, target_x, target_y);
            grid.is_open(
                if moves.x {
                    target_x
                } else {
                    cell_x
                },
                if moves.y {
                    target_y
                } else {
                    cell_y
                },
            )
        }),
{
}

} // verus!
