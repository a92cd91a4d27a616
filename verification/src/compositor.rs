//! The integer side of drawing a frame: the colour of a wall, the rows that a
//! wall strip covers on screen, and the cells that the overhead map shows.

use vstd::prelude::*;
use crate::map::{MapContainer, SCREEN_HEIGHT};

verus! {

/// Edge length, in pixels, of the square that stands for one cell on the
/// overhead map.
pub const MAP_RECT_SIZE: u32 = 7;

/// The flat colour in which a wall is drawn.
#[derive(Clone, Copy, Debug, PartialEq, Eq, Structural)]
pub enum WallColor {
    Red,
    Green,
    Blue,
    White,
    Yellow,
}

/// The colour that belongs to a cell code: red, green, blue and white for the
/// codes `1` to `4`, yellow for every other code.
pub open spec fn color_of(cell_code: u8) -> WallColor {
    if cell_code == 1 {
        WallColor::Red
    } else if cell_code == 2 {
        WallColor::Green
    } else if cell_code == 3 {
        WallColor::Blue
    } else if cell_code == 4 {
        WallColor::White
    } else {
        WallColor::Yellow
    }
}

/// Picks the colour in which to draw a wall of the given code.
pub fn wall_color(cell_code: u8) -> (color: WallColor)
    ensures
        color == color_of(cell_code),
{
    match cell_code {
        1 => WallColor::Red,
        2 => WallColor::Green,
        3 => WallColor::Blue,
        4 => WallColor::White,
        _ => WallColor::Yellow,
    }
}

impl WallColor {
    /// The name under which a drawing surface knows the colour.
    pub open spec fn name_chars(self) -> Seq<char> {
        match self {
            WallColor::Red => "red"@,
            WallColor::Green => "green"@,
            WallColor::Blue => "blue"@,
            WallColor::White => "white"@,
            WallColor::Yellow => "yellow"@,
        }
    }

    /// The name under which a drawing surface knows the colour.
    pub fn name(self) -> (name: &'static str)
        ensures
            name@ == self.name_chars(),
    {
        match self {
            WallColor::Red => "red",
            WallColor::Green => "green",
            WallColor::Blue => "blue",
            WallColor::White => "white",
            WallColor::Yellow => "yellow",
        }
    }
}

/// A screen row brought into the range of rows that exist, `0` to
/// `SCREEN_HEIGHT - 1`.
pub open spec fn clamp_row(row: int) -> int {
    if row < 0 {
        0
    } else if row > SCREEN_HEIGHT - 1 {
        SCREEN_HEIGHT - 1
    } else {
        row
    }
}

/// Brings a screen row into the range of rows that exist.
pub fn clamp_to_screen(row: i32) -> (clamped: i32)
    ensures
        clamped == clamp_row(row as int),
        0 <= clamped < SCREEN_HEIGHT,
{
    if row < 0 {
        0
    } else if row > SCREEN_HEIGHT as i32 - 1 {
        SCREEN_HEIGHT as i32 - 1
    } else {
        row
    }
}

/// One vertical line of a wall, ready to draw.
#[derive(Clone, Copy, Debug, PartialEq, Eq, Structural)]
pub struct Strip {
    /// Screen column of the line.
    pub column: u32,
    /// First row of the line.
    pub draw_start: i32,
    /// Last row of the line.
    pub draw_end: i32,
    /// Colour of the line.
    pub color: WallColor,
}

/// Makes the strip for one screen column. `top` and `bottom` are the rows at
/// which the wall begins and ends before the screen cuts it off: half the
/// wall's height above and below the middle of the screen.
pub fn wall_strip(column: u32, top: i32, bottom: i32, cell_code: u8) -> (strip: Strip)
    ensures
        strip.column == column,
        strip.draw_start == clamp_row(top as int),
        strip.draw_end == clamp_row(bottom as int),
        strip.color == color_of(cell_code),
        top <= bottom ==> strip.draw_start <= strip.draw_end,
{
    Strip {
        column,
        draw_start: clamp_to_screen(top),
        draw_end: clamp_to_screen(bottom),
        color: wall_color(cell_code),
    }
}

/// The walls among the first `upto` cells of row `y`, from left to right.
pub open spec fn row_walls(grid: &MapContainer, y: int, upto: nat) -> Seq<(usize, usize)>
    decreases upto,
{
    if upto == 0 {
        Seq::empty()
    } else {
        let x = upto - 1;
        let before = row_walls(grid, y, x as nat);
        if grid.cell(x, y) != 0 {
            before.push((x as usize, y as usize))
        } else {
            before
        }
    }
}

/// The walls in the first `rows` rows of the grid, row after row and each row
/// from left to right.
pub open spec fn grid_walls(grid: &MapContainer, rows: nat) -> Seq<(usize, usize)>
    decreases rows,
{
    if rows == 0 {
        Seq::empty()
    } else {
        grid_walls(grid, (rows - 1) as nat) + row_walls(grid, rows - 1, grid.width as nat)
    }
}

/// Lists the cells that the overhead map shows as filled squares: every cell
/// that holds a wall, once, as `(x, y)`, in the order in which the grid
/// stores them.
pub fn wall_cells(grid: &MapContainer) -> (cells: Vec<(usize, usize)>)
    requires
        grid.well_formed(),
    ensures
        cells@ == grid_walls(grid, grid.height as nat),
{
    let mut cells: Vec<(usize, usize)> = Vec::new();
    let mut y: usize = 0;
    while y < grid.height
        invariant
            grid.well_formed(),
            y <= grid.height,
            cells@ == grid_walls(grid, y as nat),
        decreases grid.height - y,
    {
        let mut x: usize = 0;
        while x < grid.width
            invariant
                grid.well_formed(),
                y < grid.height,
                x <= grid.width,
                cells@ == grid_walls(grid, y as nat) + row_walls(grid, y as int, x as nat),
            decreases grid.width - x,
        {
            if grid.get(x, y) != 0 {
                cells.push((x, y));
            }
            x = x + 1;
        }
        y = y + 1;
    }
    cells
}

/// One filled square of the overhead map, in pixels.
#[derive(Clone, Copy, Debug, PartialEq, Eq, Structural)]
pub struct MapSquare {
    /// Distance of the square's left edge from the left edge of the screen.
    pub left: u128,
    /// Distance of the square's top edge from the top edge of the screen.
    pub top: u128,
    /// Edge length of the square.
    pub size: u32,
}

/// The square that stands for cell `(x, y)`: the cell's coordinates scaled
/// by the edge length of a square.
pub open spec fn square_of(cell: (usize, usize)) -> MapSquare {
    MapSquare {
        left: (cell.0 * MAP_RECT_SIZE) as u128,
        top: (cell.1 * MAP_RECT_SIZE) as u128,
        size: MAP_RECT_SIZE,
    }
}

/// Places the square of one cell on the screen. The coordinates are wide
/// enough for a cell of any grid.
pub fn map_square(x: usize, y: usize) -> (square: MapSquare)
    ensures
        square == square_of((x, y)),
        square.left == x * MAP_RECT_SIZE,
        square.top == y * MAP_RECT_SIZE,
{
    MapSquare {
        left: x as u128 * MAP_RECT_SIZE as u128,
        top: y as u128 * MAP_RECT_SIZE as u128,
        size: MAP_RECT_SIZE,
    }
}

/// Lists the filled squares of the overhead map: one for every cell that
/// holds a wall, in the order of `wall_cells`.
pub fn minimap_squares(grid: &MapContainer) -> (squares: Vec<MapSquare>)
    requires
        grid.well_formed(),
    ensures
        squares@ == grid_walls(grid, grid.height as nat).map_values(
            |cell: (usize, usize)| square_of(cell),
        ),
{
    let cells = wall_cells(grid);
    let mut squares: Vec<MapSquare> = Vec::new();
    let mut k: usize = 0;
    while k < cells.len()
        invariant
            k <= cells.len(),
            squares.len() == k,
            forall|m: int| 0 <= m < k ==> squares@[m] == square_of(#[trigger] cells@[m]),
        decreases cells.len() - k,
    {
        let (x, y) = cells[k];
        squares.push(map_square(x, y));
        k = k + 1;
    }
    assert(squares@ =~= cells@.map_values(|cell: (usize, usize)| square_of(cell)));
    squares
}

/// A row's list holds exactly the walls of that row.
pub proof fn lemma_row_walls_contains(grid: &MapContainer, y: int, upto: nat, cell: (usize, usize))
    requires
        0 <= y <= usize::MAX,
        upto <= usize::MAX + 1,
    ensures
        row_walls(grid, y, upto).contains(cell) <==> cell.1 == y && cell.0 < upto && grid.cell(
            cell.0 as int,
            y,
        ) != 0,
    decreases upto,
{
    if upto > 0 {
        let x = upto - 1;
        let before = row_walls(grid, y, x as nat);
        lemma_row_walls_contains(grid, y, x as nat, cell);
        if grid.cell(x, y) != 0 {
            let all = before.push((x as usize, y as usize));
            if before.contains(cell) {
                let k = choose|k: int| 0 <= k < before.len() && before[k] == cell;
                assert(all[k] == cell);
            }
            if cell == (x as usize, y as usize) {
                assert(all[before.len() as int] == cell);
            }
        }
    }
}

/// The overhead map shows exactly the walls: a cell is listed if and only if
/// it lies inside the grid and holds a wall.
pub proof fn lemma_grid_walls_contains(grid: &MapContainer, rows: nat, cell: (usize, usize))
    requires
        rows <= grid.height,
    ensures
        grid_walls(grid, rows).contains(cell) <==> cell.1 < rows && grid.is_wall(
            cell.0 as int,
            cell.1 as int,
        ),
    decreases rows,
{
    if rows > 0 {
        let above = grid_walls(grid, (rows - 1) as nat);
        let row = row_walls(grid, rows - 1, grid.width as nat);
        lemma_grid_walls_contains(grid, (rows - 1) as nat, cell);
        lemma_row_walls_contains(grid, rows - 1, grid.width as nat, cell);
        if above.contains(cell) {
            let k = choose|k: int| 0 <= k < above.len() && above[k] == cell;
            assert((above + row)[k] == cell);
        }
        if row.contains(cell) {
            let k = choose|k: int| 0 <= k < row.len() && row[k] == cell;
            assert((above + row)[above.len() + k] == cell);
        }
        if (above + row).contains(cell) {
            let k = choose|k: int| 0 <= k < (above + row).len() && (above + row)[k] == cell;
            if k < above.len() {
                assert(above[k] == cell);
            } else {
                assert(row[k - above.len()] == cell);
            }
        }
    }
}

/// Cell `a` comes before cell `b` when the grid is read row after row, each
/// row from left to right.
pub open spec fn scanned_before(a: (usize, usize), b: (usize, usize)) -> bool {
    a.1 < b.1 || (a.1 == b.1 && a.0 < b.0)
}

/// A row's list runs from left to right and stays within the row.
pub proof fn lemma_row_walls_ordered(grid: &MapContainer, y: int, upto: nat)
    requires
        0 <= y <= usize::MAX,
        upto <= usize::MAX + 1,
    ensures
        forall|k: int|
            0 <= k < row_walls(grid, y, upto).len() ==> (#[trigger] row_walls(grid, y, upto)[k]).1
                == y && row_walls(grid, y, upto)[k].0 < upto,
        forall|k: int, m: int|
            0 <= k < m < row_walls(grid, y, upto).len() ==> scanned_before(
                #[trigger] row_walls(grid, y, upto)[k],
                #[trigger] row_walls(grid, y, upto)[m],
            ),
    decreases upto,
{
    if upto > 0 {
        let x = upto - 1;
        let before = row_walls(grid, y, x as nat);
        let all = row_walls(grid, y, upto);
        lemma_row_walls_ordered(grid, y, x as nat);
        assert forall|k: int| 0 <= k < all.len() implies (#[trigger] all[k]).1 == y && all[k].0
            < upto by {
            if k < before.len() {
                assert(all[k] == before[k]);
            }
        }
        assert forall|k: int, m: int| 0 <= k < m < all.len() implies scanned_before(
            #[trigger] all[k],
            #[trigger] all[m],
        ) by {
            assert(all[k] == before[k]);
            if m < before.len() {
                assert(all[m] == before[m]);
            }
        }
    }
}

/// The overhead map lists its cells in the order in which the grid stores
/// them, each cell before every cell that follows it in that order.
pub proof fn lemma_grid_walls_ordered(grid: &MapContainer, rows: nat)
    requires
        rows <= grid.height,
    ensures
        forall|k: int|
            0 <= k < grid_walls(grid, rows).len() ==> (#[trigger] grid_walls(grid, rows)[k]).1
                < rows,
        forall|k: int, m: int|
            0 <= k < m < grid_walls(grid, rows).len() ==> scanned_before(
                #[trigger] grid_walls(grid, rows)[k],
                #[trigger] grid_walls(grid, rows)[m],
            ),
    decreases rows,
{
    if rows > 0 {
        let above = grid_walls(grid, (rows - 1) as nat);
        let row = row_walls(grid, rows - 1, grid.width as nat);
        let all = grid_walls(grid, rows);
        lemma_grid_walls_ordered(grid, (rows - 1) as nat);
        lemma_row_walls_ordered(grid, rows - 1, grid.width as nat);
        assert forall|k: int| 0 <= k < all.len() implies (#[trigger] all[k]).1 < rows by {
            if k < above.len() {
                assert(all[k] == above[k]);
            } else {
                assert(all[k] == row[k - above.len()]);
            }
        }
        assert forall|k: int, m: int| 0 <= k < m < all.len() implies scanned_before(
            #[trigger] all[k],
            #[trigger] all[m],
        ) by {
            if m < above.len() {
                assert(all[k] == above[k]);
                assert(all[m] == above[m]);
            } else if k < above.len() {
                assert(all[k] == above[k]);
                assert(all[m] == row[m - above.len()]);
            } else {
                assert(all[k] == row[k - above.len()]);
                assert(all[m] == row[m - above.len()]);
            }
        }
    }
}

/// The overhead map shows each wall once: no cell is listed twice.
pub proof fn lemma_grid_walls_lists_each_once(grid: &MapContainer)
    ensures
        grid_walls(grid, grid.height as nat).no_duplicates(),
{
    lemma_grid_walls_ordered(grid, grid.height as nat);
}

} // verus!
