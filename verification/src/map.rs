//! The occupancy grid and the map definition it is loaded from.

use vstd::prelude::*;

verus! {

/// Width of the drawing surface, in pixels.
pub const SCREEN_WIDTH: u32 = 1280;

/// Height of the drawing surface, in pixels.
pub const SCREEN_HEIGHT: u32 = 720;

/// A map definition as it arrives from outside: `height` rows of `width` cell
/// codes each, the first row being `y == 0`.
pub struct MapBuilder {
    pub height: usize,
    pub width: usize,
    pub map: Vec<Vec<u8>>,
}

impl MapBuilder {
    /// The matrix has the announced shape: `height` rows, each `width` long.
    pub open spec fn well_formed(&self) -> bool {
        &&& self.map@.len() == self.height
        &&& forall|y: int| 0 <= y < self.height ==> (#[trigger] self.map@[y])@.len() == self.width
    }

    /// The code that the definition gives to cell `(x, y)`.
    pub open spec fn code_at(&self, x: int, y: int) -> u8 {
        self.map@[y]@[x]
    }

    /// Checks that the matrix has the announced shape.
    pub fn is_well_formed(&self) -> (ok: bool)
        ensures
            ok == self.well_formed(),
    {
        if self.map.len() != self.height {
            return false;
        }
        let mut y: usize = 0;
        while y < self.height
            invariant
                y <= self.height,
                self.map@.len() == self.height,
                forall|r: int| 0 <= r < y ==> (#[trigger] self.map@[r])@.len() == self.width,
            decreases self.height - y,
        {
            if self.map[y].len() != self.width {
                return false;
            }
            y = y + 1;
        }
        true
    }
}

/// Where a grid of the given width stores cell `(x, y)`: rows follow one
/// another, each `width` cells long.
pub open spec fn row_major(width: int, x: int, y: int) -> int {
    width * y + x
}

/// An occupancy grid stored row by row: the code of cell `(x, y)` sits at
/// index `width * y + x`. Code `0` is passable, any other code is a wall.
pub struct MapContainer {
    pub map: Vec<u8>,
    pub width: usize,
    pub height: usize,
}

impl MapContainer {
    /// The storage holds exactly one code per cell.
    pub open spec fn well_formed(&self) -> bool {
        self.map.len() == self.width * self.height
    }

    /// `(x, y)` names a cell of the grid.
    pub open spec fn in_bounds(&self, x: int, y: int) -> bool {
        0 <= x < self.width && 0 <= y < self.height
    }

    /// The code of cell `(x, y)`; meaningful only inside the grid.
    pub open spec fn cell(&self, x: int, y: int) -> u8 {
        self.map@[row_major(self.width as int, x, y)]
    }

    /// `(x, y)` is a cell of the grid that holds no wall.
    pub open spec fn is_open(&self, x: int, y: int) -> bool {
        self.in_bounds(x, y) && self.cell(x, y) == 0
    }

    /// `(x, y)` is a cell of the grid that holds a wall.
    pub open spec fn is_wall(&self, x: int, y: int) -> bool {
        self.in_bounds(x, y) && self.cell(x, y) != 0
    }

    /// Every cell on the outer ring of the grid holds a wall.
    pub open spec fn enclosed(&self) -> bool {
        forall|x: int, y: int|
            self.in_bounds(x, y) && (x == 0 || x == self.width - 1 || y == 0 || y == self.height
                - 1) ==> #[trigger] self.cell(x, y) != 0
    }

    /// What a guarded lookup finds at `(x, y)`: the cell's code inside the
    /// grid, nothing outside it.
    pub open spec fn lookup(&self, x: int, y: int) -> Option<u8> {
        if self.in_bounds(x, y) {
            Some(self.cell(x, y))
        } else {
            None
        }
    }

    /// Checks that the storage holds exactly one code per cell.
    pub fn is_well_formed(&self) -> (ok: bool)
        ensures
            ok == self.well_formed(),
    {
        match self.width.checked_mul(self.height) {
            Some(cells) => self.map.len() == cells,
            None => false,
        }
    }

    /// Builds the grid that a well-formed map definition describes: same
    /// extent, and in each cell the code that the definition gives it.
    pub fn load(map_builder: MapBuilder) -> (grid: MapContainer)
        requires
            map_builder.well_formed(),
        ensures
            grid.well_formed(),
            grid.width == map_builder.width,
            grid.height == map_builder.height,
            forall|x: int, y: int|
                grid.in_bounds(x, y) ==> #[trigger] grid.cell(x, y) == map_builder.code_at(x, y),
    {
        let width = map_builder.width;
        let height = map_builder.height;
        let mut map: Vec<u8> = Vec::new();
        let mut y: usize = 0;
        while y < height
            invariant
                map_builder.well_formed(),
                width == map_builder.width,
                height == map_builder.height,
                y <= height,
                map.len() == width * y,
                forall|k: int, r: int|
                    0 <= r < y && 0 <= k < width ==> map@[#[trigger] row_major(width as int, k, r)]
                        == map_builder.map@[r]@[k],
            decreases height - y,
        {
            let mut x: usize = 0;
            while x < width
                invariant
                    map_builder.well_formed(),
                    width == map_builder.width,
                    height == map_builder.height,
                    y < height,
                    x <= width,
                    map.len() == width * y + x,
                    forall|k: int, r: int|
                        0 <= r < y && 0 <= k < width ==> map@[#[trigger] row_major(
                            width as int,
                            k,
                            r,
                        )] == map_builder.map@[r]@[k],
                    forall|k: int|
                        0 <= k < x ==> map@[#[trigger] row_major(width as int, k, y as int)]
                            == map_builder.map@[y as int]@[k],
                decreases width - x,
            {
                let code = map_builder.map[y][x];
                proof {
                    assert forall|k: int, r: int| 0 <= r < y && 0 <= k < width implies 0
                        <= #[trigger] row_major(width as int, k, r) < width * y by {
                        lemma_index_in_range(width as int, y as int, k, r);
                    }
                }
                map.push(code);
                x = x + 1;
            }
            proof {
                assert(width * y + width == width * (y + 1)) by (nonlinear_arith);
            }
            y = y + 1;
        }
        MapContainer { map, width, height }
    }

    /// Looks up the code of a cell that is known to lie inside the grid.
    pub fn get(&self, x: usize, y: usize) -> (code: u8)
        requires
            self.well_formed(),
            self.in_bounds(x as int, y as int),
        ensures
            code == self.cell(x as int, y as int),
    {
        proof {
            lemma_index_in_range(self.width as int, self.height as int, x as int, y as int);
        }
        self.map[self.width * y + x]
    }

    /// Looks up the code of a cell through an exclusive borrow of the grid,
    /// which it leaves as it was.
    pub fn get_mut(&mut self, x: usize, y: usize) -> (code: u8)
        requires
            old(self).well_formed(),
            old(self).in_bounds(x as int, y as int),
        ensures
            *final(self) == *old(self),
            code == old(self).cell(x as int, y as int),
    {
        proof {
            lemma_index_in_range(self.width as int, self.height as int, x as int, y as int);
        }
        self.map[self.width * y + x]
    }

    /// Writes `val` into cell `(x, y)` and leaves every other cell as it
    /// was. It always succeeds.
    pub fn set(&mut self, x: usize, y: usize, val: u8) -> (done: Result<(), String>)
        requires
            old(self).well_formed(),
            old(self).in_bounds(x as int, y as int),
        ensures
            done is Ok,
            final(self).well_formed(),
            final(self).width == old(self).width,
            final(self).height == old(self).height,
            final(self).map@ == old(self).map@.update(
                row_major(old(self).width as int, x as int, y as int),
                val,
            ),
            final(self).cell(x as int, y as int) == val,
            forall|x2: int, y2: int|
                old(self).in_bounds(x2, y2) && (x2 != x || y2 != y) ==> #[trigger] final(self).cell(
                    x2,
                    y2,
                ) == old(self).cell(x2, y2),
    {
        proof {
            lemma_index_in_range(self.width as int, self.height as int, x as int, y as int);
            assert forall|x2: int, y2: int|
                self.in_bounds(x2, y2) && (x2 != x || y2 != y) implies #[trigger] row_major(
                self.width as int,
                x2,
                y2,
            ) != row_major(self.width as int, x as int, y as int) && 0 <= row_major(
                self.width as int,
                x2,
                y2,
            ) < self.map@.len() by {
                lemma_index_is_injective(self.width as int, x as int, y as int, x2, y2);
                lemma_index_in_range(self.width as int, self.height as int, x2, y2);
            }
        }
        let index = self.width * y + x;
        self.map[index] = val;
        Ok(())
    }

    /// Guarded lookup for coordinates that may fall anywhere, also outside
    /// the grid.
    pub fn probe(&self, x: i64, y: i64) -> (code: Option<u8>)
        requires
            self.well_formed(),
        ensures
            code == self.lookup(x as int, y as int),
    {
        self.probe_wide(x as i128, y as i128)
    }

    /// `probe` on coordinates wide enough that stepping off any cell cannot
    /// overflow.
    pub(crate) fn probe_wide(&self, x: i128, y: i128) -> (code: Option<u8>)
        requires
            self.well_formed(),
        ensures
            code == self.lookup(x as int, y as int),
    {
        if x < 0 || y < 0 || x >= self.width as i128 || y >= self.height as i128 {
            None
        } else {
            Some(self.get(x as usize, y as usize))
        }
    }
}

/// A cell inside a `width` by `height` grid has a row-major index inside the
/// storage, and so do the products on the way to it.
pub proof fn lemma_index_in_range(width: int, height: int, x: int, y: int)
    requires
        0 <= x < width,
        0 <= y < height,
    ensures
        0 <= width * y <= width * y + x < width * height,
        0 <= row_major(width, x, y) < width * height,
{
    assert(width * y + width == width * (y + 1)) by (nonlinear_arith);
    assert(width * (y + 1) <= width * height) by (nonlinear_arith)
        requires
            0 <= width,
            y + 1 <= height,
    ;
    assert(0 <= width * y) by (nonlinear_arith)
        requires
            0 <= width,
            0 <= y,
    ;
}

/// Two different cells of a grid never share a storage index.
pub proof fn lemma_index_is_injective(width: int, x1: int, y1: int, x2: int, y2: int)
    requires
        0 <= x1 < width,
        0 <= x2 < width,
        0 <= y1,
        0 <= y2,
        x1 != x2 || y1 != y2,
    ensures
        row_major(width, x1, y1) != row_major(width, x2, y2),
{
    if y1 < y2 {
        assert(width * (y1 + 1) <= width * y2) by (nonlinear_arith)
            requires
                0 <= width,
                y1 + 1 <= y2,
        ;
        assert(width * (y1 + 1) == width * y1 + width) by (nonlinear_arith);
    } else if y2 < y1 {
        assert(width * (y2 + 1) <= width * y1) by (nonlinear_arith)
            requires
                0 <= width,
                y2 + 1 <= y1,
        ;
        assert(width * (y2 + 1) == width * y2 + width) by (nonlinear_arith);
    }
}

} // verus!
