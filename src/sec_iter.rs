//! A restartable traversal of one section, row by row.
use vstd::prelude::*;

use crate::board::Sudoku;
use crate::section::lemma_split_position;

verus! {

/// Walks the `sec_width x sec_height` cells whose top-left corner is
/// `(start_col, start_row)`: each row of the section top to bottom, each
/// column left to right.
pub struct SudokuSecIter<'a> {
    start_row: usize,
    start_col: usize,
    current_row: usize,
    current_col: usize,
    sudoku: &'a Sudoku,
    done: bool,
}

impl<'a> SudokuSecIter<'a> {
    /// The board walked over.
    pub closed spec fn board(&self) -> Sudoku {
        *self.sudoku
    }

    /// The first column of the section.
    pub closed spec fn spec_start_col(&self) -> int {
        self.start_col as int
    }

    /// The first row of the section.
    pub closed spec fn spec_start_row(&self) -> int {
        self.start_row as int
    }

    /// How many cells have been handed out.
    pub closed spec fn position(&self) -> int {
        let sw = self.sudoku.spec_sec_width() as int;
        if self.done {
            sw * self.sudoku.spec_sec_height()
        } else {
            (self.current_row - self.start_row) * sw + (self.current_col - self.start_col)
        }
    }

    /// The values still to come, in order.
    pub open spec fn remaining(&self) -> Seq<Option<u32>> {
        let sw = self.board().spec_sec_width() as int;
        let sh = self.board().spec_sec_height() as int;
        let p = self.position();
        Seq::new(
            (sw * sh - p) as nat,
            |j: int| self.board().cell(self.spec_start_col() + (p + j) % sw, self.spec_start_row() + (p + j) / sw),
        )
    }

    /// The section lies on the board and the cursor inside the section.
    pub closed spec fn wf(&self) -> bool {
        let sw = self.sudoku.spec_sec_width() as int;
        let sh = self.sudoku.spec_sec_height() as int;
        &&& self.sudoku.wf()
        &&& self.start_col + sw <= self.sudoku.spec_size()
        &&& self.start_row + sh <= self.sudoku.spec_size()
        &&& !self.done ==> {
            &&& self.start_col <= self.current_col < self.start_col + sw
            &&& self.start_row <= self.current_row < self.start_row + sh
        }
        &&& 0 <= self.position() <= sw * sh
    }

    /// A traversal of the section whose top-left corner is
    /// `(start_col, start_row)`.
    pub fn new(start_row: usize, start_col: usize, sudoku: &'a Sudoku) -> (r: Self)
        requires
            sudoku.wf(),
            start_col + sudoku.spec_sec_width() <= sudoku.spec_size(),
            start_row + sudoku.spec_sec_height() <= sudoku.spec_size(),
        ensures
            r.wf(),
            r.board() == *sudoku,
            r.spec_start_col() == start_col,
            r.spec_start_row() == start_row,
            r.remaining() == Seq::new(
                sudoku.spec_sec_width() * sudoku.spec_sec_height(),
                |j: int|
                    sudoku.cell(
                        start_col + j % (sudoku.spec_sec_width() as int),
                        start_row + j / (sudoku.spec_sec_width() as int),
                    ),
            ),
    {
        proof {
            sudoku.lemma_wf();
            let sw = sudoku.spec_sec_width() as int;
            let sh = sudoku.spec_sec_height() as int;
            assert(0 * sw == 0) by (nonlinear_arith);
            assert(sw * sh >= 1) by (nonlinear_arith)
                requires
                    sw >= 1,
                    sh >= 1,
            ;
        }
        let r = SudokuSecIter {
            start_row,
            start_col,
            current_row: start_row,
            current_col: start_col,
            sudoku,
            done: false,
        };
        assert(r.remaining() =~= Seq::new(
            sudoku.spec_sec_width() * sudoku.spec_sec_height(),
            |j: int|
                sudoku.cell(
                    start_col + j % (sudoku.spec_sec_width() as int),
                    start_row + j / (sudoku.spec_sec_width() as int),
                ),
        ));
        r
    }

    /// The next value of the section, or `None` once all have been handed out.
    pub fn next(&mut self) -> (r: Option<Option<u32>>)
        requires
            old(self).wf(),
        ensures
            final(self).wf(),
            final(self).board() == old(self).board(),
            old(self).remaining().len() == 0 ==> r is None && final(self).remaining().len() == 0,
            old(self).remaining().len() > 0 ==> {
                &&& r == Some(old(self).remaining()[0])
                &&& final(self).remaining() == old(self).remaining().drop_first()
            },
    {
        if self.done {
            return None;
        }
        let ghost sw = self.sudoku.spec_sec_width() as int;
        let ghost sh = self.sudoku.spec_sec_height() as int;
        let ghost a = self.current_row - self.start_row;
        let ghost b = self.current_col - self.start_col;
        let ghost old_rem = self.remaining();
        proof {
            self.sudoku.lemma_wf();
            lemma_split_position(a, b, sw);
            assert(a * sw + b < sw * sh) by (nonlinear_arith)
                requires
                    0 <= a < sh,
                    0 <= b < sw,
            ;
        }
        let col_before = self.current_col;
        let row_before = self.current_row;
        let value = self.sudoku.get(col_before, row_before);
        assert(value == old_rem[0]);
        if self.current_col == self.start_col + self.sudoku.sec_width() - 1 {
            if self.current_row == self.start_row + self.sudoku.sec_height() - 1 {
                self.done = true;
                assert(a * sw + b + 1 == sw * sh) by (nonlinear_arith)
                    requires
                        a == sh - 1,
                        b == sw - 1,
                ;
            } else {
                self.current_col = self.start_col;
                self.current_row = self.current_row + 1;
                assert((a + 1) * sw == a * sw + b + 1) by (nonlinear_arith)
                    requires
                        b == sw - 1,
                ;
            }
        } else {
            self.current_col = self.current_col + 1;
        }
        assert(self.remaining() =~= old_rem.drop_first());
        Some(value)
    }

    /// Hands out all the values still to come, in order.
    pub fn collect(self) -> (r: Vec<Option<u32>>)
        requires
            self.wf(),
        ensures
            r@ == self.remaining(),
    {
        let mut it = self;
        let mut out: Vec<Option<u32>> = Vec::new();
        loop
            invariant
                it.wf(),
                it.board() == self.board(),
                out@ + it.remaining() == self.remaining(),
            decreases it.remaining().len(),
        {
            let ghost before = it.remaining();
            match it.next() {
                None => {
                    assert(out@ =~= self.remaining());
                    return out;
                },
                Some(v) => {
                    out.push(v);
                    assert(out@ + it.remaining() =~= self.remaining()) by {
                        assert(before =~= seq![v] + before.drop_first());
                    }
                },
            }
        }
    }
}

} // verus!
