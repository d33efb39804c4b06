//! The board: its dimensions, its cells, and the operations on them.
use simple_grid::Grid;
use vstd::prelude::*;

use crate::cells::{
    grid_at, grid_cells, grid_column_indices, grid_column_values, grid_height, grid_height_of,
    grid_new, grid_put, grid_row_indices, grid_row_values, grid_width, grid_width_of,
};
use crate::error::CreateSudokuError;
use crate::sec_iter::SudokuSecIter;
use crate::section::{lemma_section_fits, section_start};

verus! {

/// `row * size + col` lies inside a `size x size` store.
pub proof fn lemma_index_in_store(size: int, col: int, row: int)
    requires
        0 <= col < size,
        0 <= row < size,
    ensures
        0 <= row * size + col < size * size,
{
    assert(row * size <= (size - 1) * size) by (nonlinear_arith)
        requires
            0 <= row <= size - 1,
            size > 0,
    ;
    assert((size - 1) * size + size == size * size) by (nonlinear_arith);
    assert(0 <= row * size) by (nonlinear_arith)
        requires
            0 <= row,
            0 <= size,
    ;
}

/// A value is admissible on a board of `size` symbols: empty, or in `1..=size`.
pub open spec fn in_domain(v: Option<u32>, size: int) -> bool {
    match v {
        Some(x) => 1 <= x <= size,
        None => true,
    }
}

/// Outcome of construction with the given dimensions.
pub open spec fn construct_outcome(size: int, sec_width: int, sec_height: int) -> Result<
    (),
    CreateSudokuError,
> {
    if size < 1 {
        Err(CreateSudokuError::InvalidSize)
    } else if sec_width < 1 {
        Err(CreateSudokuError::InvalidSecWidth)
    } else if sec_height < 1 {
        Err(CreateSudokuError::InvalidSecHeight)
    } else if sec_width * sec_height != size {
        Err(CreateSudokuError::InvalidCombination)
    } else {
        Ok(())
    }
}

/// A generalised Sudoku board of `size x size` cells, split into sections of
/// `sec_width x sec_height` cells.
pub struct Sudoku {
    size: usize,
    sec_width: usize,
    sec_height: usize,
    grid: Grid<Option<u32>>,
}

impl Sudoku {
    /// The number of distinct symbols; also the board's width and height.
    pub closed spec fn spec_size(&self) -> nat {
        self.size as nat
    }

    /// The number of columns of a section.
    pub closed spec fn spec_sec_width(&self) -> nat {
        self.sec_width as nat
    }

    /// The number of rows of a section.
    pub closed spec fn spec_sec_height(&self) -> nat {
        self.sec_height as nat
    }

    /// The cells, row by row.
    pub closed spec fn cells(&self) -> Seq<Option<u32>> {
        grid_cells(self.grid)
    }

    /// Where the cell at `(col, row)` stands in `cells()`.
    pub open spec fn index(&self, col: int, row: int) -> int {
        row * self.spec_size() + col
    }

    /// The value at column `col`, row `row`.
    pub open spec fn cell(&self, col: int, row: int) -> Option<u32> {
        self.cells()[self.index(col, row)]
    }

    /// The backing grid is `size x size`.
    pub closed spec fn store_ok(&self) -> bool {
        &&& grid_width(self.grid) == self.size
        &&& grid_height(self.grid) == self.size
    }

    /// The board's invariant: positive dimensions with
    /// `sec_width * sec_height == size`, `size * size` cells, each empty or in
    /// `1..=size`.
    pub open spec fn wf(&self) -> bool {
        &&& self.spec_size() >= 1
        &&& self.spec_sec_width() >= 1
        &&& self.spec_sec_height() >= 1
        &&& self.spec_sec_width() * self.spec_sec_height() == self.spec_size()
        &&& self.spec_size() * self.spec_size() <= usize::MAX
        &&& self.store_ok()
        &&& self.cells().len() == self.spec_size() * self.spec_size()
        &&& forall|i: int|
            0 <= i < self.cells().len() ==> in_domain(
                #[trigger] self.cells()[i],
                self.spec_size() as int,
            )
    }

    /// Consequences of the invariant: bounds on `size`, and every cell empty
    /// or in `1..=size`.
    pub proof fn lemma_wf(&self)
        requires
            self.wf(),
        ensures
            1 <= self.spec_size() <= usize::MAX,
            self.spec_sec_width() >= 1,
            self.spec_sec_height() >= 1,
            self.spec_sec_width() * self.spec_sec_height() == self.spec_size(),
            self.spec_size() * self.spec_size() <= usize::MAX,
            self.spec_size() <= u32::MAX,
            self.spec_size() + 1 <= usize::MAX,
            self.cells().len() == self.spec_size() * self.spec_size(),
            forall|col: int, row: int|
                0 <= col < self.spec_size() && 0 <= row < self.spec_size() ==> in_domain(
                    #[trigger] self.cell(col, row),
                    self.spec_size() as int,
                ),
    {
        let n = self.size as int;
        assert(n <= u32::MAX) by (nonlinear_arith)
            requires
                n * n <= usize::MAX,
                usize::MAX <= u64::MAX,
                n >= 1,
        ;
        assert(n + 1 <= usize::MAX) by (nonlinear_arith)
            requires
                n * n <= usize::MAX,
                usize::MAX >= u32::MAX,
                n >= 1,
        ;
        assert forall|col: int, row: int|
            0 <= col < self.spec_size() && 0 <= row < self.spec_size() implies in_domain(
            #[trigger] self.cell(col, row),
            self.spec_size() as int,
        ) by {
            lemma_index_in_store(self.size as int, col, row);
        }
    }

    /// Creates a board with all cells empty. `size` is the number of distinct
    /// symbols (9 on a classic board), `sec_width` and `sec_height` the
    /// dimensions of a section (3 and 3 on a classic board).
    pub fn new(size: usize, sec_width: usize, sec_height: usize) -> (r: Result<
        Self,
        CreateSudokuError,
    >)
        requires
            size * size <= usize::MAX,
        ensures
            construct_outcome(size as int, sec_width as int, sec_height as int) is Ok <==> r is Ok,
            construct_outcome(size as int, sec_width as int, sec_height as int) matches Err(e)
                ==> r == Err::<Self, CreateSudokuError>(e),
            r matches Ok(s) ==> {
                &&& s.wf()
                &&& s.spec_size() == size
                &&& s.spec_sec_width() == sec_width
                &&& s.spec_sec_height() == sec_height
                &&& forall|i: int| 0 <= i < s.cells().len() ==> #[trigger] s.cells()[i] is None
            },
    {
        if size < 1 {
            Err(CreateSudokuError::InvalidSize)
        } else if sec_width < 1 {
            Err(CreateSudokuError::InvalidSecWidth)
        } else if sec_height < 1 {
            Err(CreateSudokuError::InvalidSecHeight)
        } else if sec_width.checked_mul(sec_height) != Some(size) {
            Err(CreateSudokuError::InvalidCombination)
        } else {
            let n: usize = size * size;
            let mut data: Vec<Option<u32>> = Vec::new();
            while data.len() < n
                invariant
                    data@.len() <= n,
                    forall|i: int| 0 <= i < data@.len() ==> #[trigger] data@[i] is None,
                decreases n - data@.len(),
            {
                data.push(None);
            }
            let grid = grid_new(size, size, data);
            Ok(Sudoku { size, sec_width, sec_height, grid })
        }
    }

    /// The value at column `col`, row `row`.
    pub fn get(&self, col: usize, row: usize) -> (r: Option<u32>)
        requires
            self.wf(),
            col < self.spec_size(),
            row < self.spec_size(),
        ensures
            r == self.cell(col as int, row as int),
    {
        grid_at(&self.grid, col, row)
    }

    /// Sets the value at column `col`, row `row` to `v`, which is empty or in
    /// `1..=size`.
    pub fn set(&mut self, col: usize, row: usize, v: Option<u32>)
        requires
            old(self).wf(),
            col < old(self).spec_size(),
            row < old(self).spec_size(),
            in_domain(v, old(self).spec_size() as int),
        ensures
            final(self).wf(),
            final(self).spec_size() == old(self).spec_size(),
            final(self).spec_sec_width() == old(self).spec_sec_width(),
            final(self).spec_sec_height() == old(self).spec_sec_height(),
            final(self).cells() == old(self).cells().update(old(self).index(col as int, row as int), v),
    {
        proof {
            lemma_index_in_store(self.size as int, col as int, row as int);
        }
        grid_put(&mut self.grid, col, row, v);
        assert forall|i: int| 0 <= i < self.cells().len() implies in_domain(
            #[trigger] self.cells()[i],
            self.spec_size() as int,
        ) by {}
    }

    /// The number of distinct symbols, and the board's width and height.
    pub fn size(&self) -> (r: usize)
        ensures
            r == self.spec_size(),
    {
        self.size
    }

    /// The number of rows.
    pub fn height(&self) -> (r: usize)
        requires
            self.wf(),
        ensures
            r == self.spec_size(),
    {
        grid_height_of(&self.grid)
    }

    /// The number of columns.
    pub fn width(&self) -> (r: usize)
        requires
            self.wf(),
        ensures
            r == self.spec_size(),
    {
        grid_width_of(&self.grid)
    }

    /// The row indices, `0..size`.
    pub fn rows(&self) -> (r: Vec<usize>)
        requires
            self.wf(),
        ensures
            r@.len() == self.spec_size(),
            forall|i: int| 0 <= i < r@.len() ==> #[trigger] r@[i] == i,
    {
        grid_row_indices(&self.grid)
    }

    /// The column indices, `0..size`.
    pub fn columns(&self) -> (r: Vec<usize>)
        requires
            self.wf(),
        ensures
            r@.len() == self.spec_size(),
            forall|i: int| 0 <= i < r@.len() ==> #[trigger] r@[i] == i,
    {
        grid_column_indices(&self.grid)
    }

    /// The height of a section.
    pub fn sec_height(&self) -> (r: usize)
        ensures
            r == self.spec_sec_height(),
    {
        self.sec_height
    }

    /// The width of a section.
    pub fn sec_width(&self) -> (r: usize)
        ensures
            r == self.spec_sec_width(),
    {
        self.sec_width
    }
    /// The values of row `row`, left to right.
    pub open spec fn row_view(&self, row: int) -> Seq<Option<u32>> {
        Seq::new(self.spec_size(), |c: int| self.cell(c, row))
    }

    /// The values of column `col`, top to bottom.
    pub open spec fn col_view(&self, col: int) -> Seq<Option<u32>> {
        Seq::new(self.spec_size(), |r: int| self.cell(col, r))
    }

    /// The first column of the section that holds column `col`.
    pub open spec fn sec_left(&self, col: int) -> int {
        section_start(col, self.spec_sec_width() as int)
    }

    /// The first row of the section that holds row `row`.
    pub open spec fn sec_top(&self, row: int) -> int {
        section_start(row, self.spec_sec_height() as int)
    }

    /// The values of the section that holds `(col, row)`, row by row from its
    /// top-left corner.
    pub open spec fn sec_view(&self, col: int, row: int) -> Seq<Option<u32>> {
        let sw = self.spec_sec_width() as int;
        Seq::new(
            self.spec_sec_width() * self.spec_sec_height(),
            |k: int| self.cell(self.sec_left(col) + k % sw, self.sec_top(row) + k / sw),
        )
    }

    /// The values of column `col`, top to bottom.
    pub fn col_iter(&self, col: usize) -> (r: Vec<Option<u32>>)
        requires
            self.wf(),
            col < self.spec_size(),
        ensures
            r@ == self.col_view(col as int),
    {
        let r = grid_column_values(&self.grid, col);
        assert(r@ =~= self.col_view(col as int));
        r
    }

    /// The values of row `row`, left to right.
    pub fn row_iter(&self, row: usize) -> (r: Vec<Option<u32>>)
        requires
            self.wf(),
            row < self.spec_size(),
        ensures
            r@ == self.row_view(row as int),
    {
        let r = grid_row_values(&self.grid, row);
        assert(r@ =~= self.row_view(row as int));
        r
    }

    /// A traversal of the section that holds `(col, row)`, from its top-left
    /// corner, row by row.
    pub fn sec_iter(&self, col: usize, row: usize) -> (r: SudokuSecIter<'_>)
        requires
            self.wf(),
            col < self.spec_size(),
            row < self.spec_size(),
        ensures
            r.wf(),
            r.board() == *self,
            r.spec_start_col() == self.sec_left(col as int),
            r.spec_start_row() == self.sec_top(row as int),
            r.remaining() == self.sec_view(col as int, row as int),
    {
        proof {
            self.lemma_wf();
            assert(self.sec_height * self.sec_width == self.size) by (nonlinear_arith)
                requires
                    self.sec_width * self.sec_height == self.size,
            ;
            lemma_section_fits(row as int, self.sec_height as int, self.sec_width as int);
            lemma_section_fits(col as int, self.sec_width as int, self.sec_height as int);
        }
        let first_row_in_sec = (row / self.sec_height) * self.sec_height;
        let first_col_in_sec = (col / self.sec_width) * self.sec_width;
        let r = SudokuSecIter::new(first_row_in_sec, first_col_in_sec, self);
        assert(r.remaining() =~= self.sec_view(col as int, row as int));
        r
    }
}


} // verus!
