//! A bounds-checked square-capable grid of copyable cell values.

use vstd::prelude::*;

verus! {

/// Signals a coordinate outside the grid dimensions.
#[derive(Clone, PartialEq, Eq, Structural, Debug, Copy)]
pub struct OutOfBounds;

/// A grid of cell values with bounds-checked read and write access.
///
/// The grid is stored row by row; `grid[y][x]` is the cell in column `x` of
/// row `y`. Every row has the same length, and there is at least one row, so
/// that the width is well defined.
pub struct Board<T> {
    grid: Vec<Vec<T>>,
}

impl<T: Copy> Board<T> {
    /// The grid as a sequence of rows.
    pub closed spec fn view(&self) -> Seq<Seq<T>> {
        self.grid@.map_values(|row: Vec<T>| row@)
    }

    /// The number of rows.
    pub open spec fn height(&self) -> nat {
        self@.len()
    }

    /// The number of columns of every row.
    pub open spec fn width(&self) -> nat {
        self@[0].len()
    }

    /// Well-formedness: at least one row, and all rows of equal length.
    pub open spec fn wf(&self) -> bool {
        &&& self@.len() > 0
        &&& forall|y: int| 0 <= y < self@.len() ==> (#[trigger] self@[y]).len() == self.width()
    }

    /// Whether (x, y) lies inside the grid.
    pub open spec fn spec_valid(&self, x: int, y: int) -> bool {
        0 <= x < self.width() && 0 <= y < self.height()
    }

    /// A `width` by `height` grid, every cell equal to `fill`.
    pub fn new(width: usize, height: usize, fill: T) -> (b: Self)
        ensures
            b@.len() == height,
            forall|y: int| 0 <= y < height ==> (#[trigger] b@[y]).len() == width,
            forall|y: int, x: int|
                0 <= y < height && 0 <= x < width ==> #[trigger] b@[y][x] == fill,
            height > 0 ==> b.wf() && b.width() == width,
    {
        let mut grid: Vec<Vec<T>> = Vec::new();
        let mut y: usize = 0;
        while y < height
            invariant
                y <= height,
                grid@.len() == y,
                forall|j: int| 0 <= j < y ==> (#[trigger] grid@[j])@.len() == width,
                forall|j: int, x: int|
                    0 <= j < y && 0 <= x < width ==> #[trigger] grid@[j]@[x] == fill,
            decreases height - y,
        {
            let mut row: Vec<T> = Vec::new();
            let mut x: usize = 0;
            while x < width
                invariant
                    x <= width,
                    row@.len() == x,
                    forall|i: int| 0 <= i < x ==> #[trigger] row@[i] == fill,
                decreases width - x,
            {
                row.push(fill);
                x = x + 1;
            }
            grid.push(row);
            y = y + 1;
        }
        let b = Board { grid };
        assert(b@ =~= grid@.map_values(|row: Vec<T>| row@));
        b
    }

    /// Get the value of the cell at (x, y).
    ///
    /// Returns `Err(OutOfBounds)` exactly when (x, y) is outside the grid.
    pub fn get_value(&self, x: usize, y: usize) -> (r: Result<T, OutOfBounds>)
        requires
            self.wf(),
        ensures
            self.spec_valid(x as int, y as int) ==> r == Ok::<T, OutOfBounds>(self@[y as int][x as int]),
            !self.spec_valid(x as int, y as int) ==> r == Err::<T, OutOfBounds>(OutOfBounds),
    {
        match self.is_valid(x, y) {
            true => {
                assert(self@[y as int] == self.grid@[y as int]@);
                Ok(self.grid[y][x])
            },
            false => Err(OutOfBounds),
        }
    }

    /// Set the value of the cell at (x, y).
    ///
    /// Returns `Err(OutOfBounds)` exactly when (x, y) is outside the grid, and
    /// then changes nothing.
    pub fn set_cell(&mut self, x: usize, y: usize, input: T) -> (r: Result<(), OutOfBounds>)
        requires
            old(self).wf(),
        ensures
            final(self).wf(),
            final(self).height() == old(self).height(),
            final(self).width() == old(self).width(),
            old(self).spec_valid(x as int, y as int) ==> {
                &&& r == Ok::<(), OutOfBounds>(())
                &&& final(self)@ == old(self)@.update(
                    y as int,
                    old(self)@[y as int].update(x as int, input),
                )
            },
            !old(self).spec_valid(x as int, y as int) ==> {
                &&& r == Err::<(), OutOfBounds>(OutOfBounds)
                &&& final(self)@ == old(self)@
            },
    {
        match self.is_valid(x, y) {
            true => {
                assert(self@[y as int] == self.grid@[y as int]@);
                self.grid[y][x] = input;
                assert(self@ =~= old(self)@.update(
                    y as int,
                    old(self)@[y as int].update(x as int, input),
                ));
                Ok(())
            },
            false => Err(OutOfBounds),
        }
    }

    /// Replace the grid by a `width` by `height` grid of `fill`.
    pub fn resize_reset(&mut self, width: usize, height: usize, fill: T)
        ensures
            final(self)@.len() == height,
            forall|y: int| 0 <= y < height ==> (#[trigger] final(self)@[y]).len() == width,
            forall|y: int, x: int|
                0 <= y < height && 0 <= x < width ==> #[trigger] final(self)@[y][x] == fill,
            height > 0 ==> final(self).wf() && final(self).width() == width,
    {
        let fresh = Self::new(width, height, fill);
        self.grid = fresh.grid;
        assert(self@ =~= fresh@);
    }

    /// Check whether x and y are within bounds.
    ///
    /// x and y are unsigned, so they are always above the lower bounds.
    pub fn is_valid(&self, x: usize, y: usize) -> (r: bool)
        requires
            self.wf(),
        ensures
            r == self.spec_valid(x as int, y as int),
    {
        x < self.grid[0].len() && y < self.grid.len()
    }
}

} // verus!
