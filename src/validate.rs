//! Counting values in the views, placement checks, and the solved test.
use vstd::prelude::*;

use crate::board::{in_domain, Sudoku};

verus! {

/// How many entries of `s` equal `Some(v)`.
pub open spec fn count_of(s: Seq<Option<u32>>, v: u32) -> nat
    decreases s.len(),
{
    if s.len() == 0 {
        0
    } else {
        count_of(s.drop_last(), v) + if s.last() == Some(v) {
            1nat
        } else {
            0nat
        }
    }
}

/// How many entries of `values` equal `Some(value)`.
pub fn count_value(values: &Vec<Option<u32>>, value: u32) -> (r: usize)
    ensures
        r == count_of(values@, value),
{
    let mut n: usize = 0;
    let mut i: usize = 0;
    while i < values.len()
        invariant
            i <= values@.len(),
            n <= i,
            n == count_of(values@.take(i as int), value),
        decreases values@.len() - i,
    {
        assert(values@.take(i as int + 1).drop_last() =~= values@.take(i as int));
        if values[i] == Some(value) {
            n = n + 1;
        }
        i = i + 1;
    }
    assert(values@.take(i as int) =~= values@);
    n
}

impl Sudoku {
    /// The section at block column `bcol` and block row `brow`: its top-left
    /// corner is `(bcol * sec_width, brow * sec_height)`.
    pub open spec fn block_view(&self, bcol: int, brow: int) -> Seq<Option<u32>> {
        self.sec_view(
            bcol * self.spec_sec_width(),
            brow * self.spec_sec_height(),
        )
    }

    /// `value` may go at `(col, row)`: it is there already, or it occurs
    /// nowhere in that column, row and section.
    pub open spec fn can_place(&self, col: int, row: int, value: u32) -> bool {
        ||| self.cell(col, row) == Some(value)
        ||| count_of(self.col_view(col), value) + count_of(self.row_view(row), value) + count_of(
            self.sec_view(col, row),
            value,
        ) == 0
    }

    /// `value` occurs exactly once in every row, column and section.
    pub open spec fn value_solved(&self, value: u32) -> bool {
        &&& forall|row: int|
            0 <= row < self.spec_size() ==> count_of(#[trigger] self.row_view(row), value) == 1
        &&& forall|col: int|
            0 <= col < self.spec_size() ==> count_of(#[trigger] self.col_view(col), value) == 1
        &&& forall|bcol: int, brow: int|
            0 <= bcol < self.spec_sec_height() && 0 <= brow < self.spec_sec_width() ==> count_of(
                #[trigger] self.block_view(bcol, brow),
                value,
            ) == 1
    }

    /// Every value of `1..=size` occurs exactly once in every row, column and
    /// section.
    pub open spec fn solved(&self) -> bool {
        forall|value: u32| 1 <= value <= self.spec_size() ==> #[trigger] self.value_solved(value)
    }

    /// How many cells of row `row` hold `value`.
    pub fn count_in_row(&self, row: usize, value: u32) -> (r: usize)
        requires
            self.wf(),
            row < self.spec_size(),
        ensures
            r == count_of(self.row_view(row as int), value),
    {
        count_value(&self.row_iter(row), value)
    }

    /// How many cells of column `col` hold `value`.
    pub fn count_in_col(&self, col: usize, value: u32) -> (r: usize)
        requires
            self.wf(),
            col < self.spec_size(),
        ensures
            r == count_of(self.col_view(col as int), value),
    {
        count_value(&self.col_iter(col), value)
    }

    /// How many cells of the section that holds `(col, row)` hold `value`.
    pub fn count_in_sec(&self, col: usize, row: usize, value: u32) -> (r: usize)
        requires
            self.wf(),
            col < self.spec_size(),
            row < self.spec_size(),
        ensures
            r == count_of(self.sec_view(col as int, row as int), value),
    {
        count_value(&self.sec_iter(col, row).collect(), value)
    }

    /// Whether `value` may be placed at `(col, row)` without a conflict.
    pub fn can_place_value(&self, col: usize, row: usize, value: u32) -> (r: bool)
        requires
            self.wf(),
            col < self.spec_size(),
            row < self.spec_size(),
        ensures
            r == self.can_place(col as int, row as int, value),
    {
        if self.get(col, row) == Some(value) {
            true
        } else {
            self.count_in_col(col, value) == 0 && self.count_in_row(row, value) == 0
                && self.count_in_sec(col, row, value) == 0
        }
    }

    /// Places `value` at `(col, row)` when that introduces no conflict;
    /// otherwise leaves the board as it is and reports failure.
    pub fn place_if_possible(&mut self, col: usize, row: usize, value: u32) -> (r: Result<(), ()>)
        requires
            old(self).wf(),
            col < old(self).spec_size(),
            row < old(self).spec_size(),
            1 <= value <= old(self).spec_size(),
        ensures
            final(self).wf(),
            final(self).spec_size() == old(self).spec_size(),
            final(self).spec_sec_width() == old(self).spec_sec_width(),
            final(self).spec_sec_height() == old(self).spec_sec_height(),
            r is Ok <==> old(self).can_place(col as int, row as int, value),
            r is Ok ==> final(self).cells() == old(self).cells().update(
                old(self).index(col as int, row as int),
                Some(value),
            ),
            r is Err ==> final(self).cells() == old(self).cells(),
    {
        if self.can_place_value(col, row, value) {
            self.set(col, row, Some(value));
            Ok(())
        } else {
            Err(())
        }
    }

    /// Whether every value of `1..=size` occurs exactly once in every row,
    /// column and section. An empty board is not solved.
    pub fn is_solved(&self) -> (r: bool)
        requires
            self.wf(),
        ensures
            r == self.solved(),
    {
        proof {
            self.lemma_wf();
        }
        let size = self.size();
        let sw = self.sec_width();
        let sh = self.sec_height();
        let mut v: usize = 1;
        while v <= size
            invariant
                self.wf(),
                size == self.spec_size(),
                sw == self.spec_sec_width(),
                sh == self.spec_sec_height(),
                size <= u32::MAX,
                size + 1 <= usize::MAX,
                sw * sh == size,
                1 <= v <= size + 1,
                forall|w: u32| 1 <= w < v ==> #[trigger] self.value_solved(w),
            decreases size + 1 - v,
        {
            let value = v as u32;
            let mut row: usize = 0;
            while row < size
                invariant
                    self.wf(),
                    size == self.spec_size(),
                    1 <= value <= size,
                    row <= size,
                    forall|r: int| 0 <= r < row ==> count_of(#[trigger] self.row_view(r), value) == 1,
                decreases size - row,
            {
                if self.count_in_row(row, value) != 1 {
                    assert(!self.value_solved(value));
                    return false;
                }
                row = row + 1;
            }
            let mut col: usize = 0;
            while col < size
                invariant
                    self.wf(),
                    size == self.spec_size(),
                    1 <= value <= size,
                    col <= size,
                    forall|c: int| 0 <= c < col ==> count_of(#[trigger] self.col_view(c), value) == 1,
                decreases size - col,
            {
                if self.count_in_col(col, value) != 1 {
                    assert(!self.value_solved(value));
                    return false;
                }
                col = col + 1;
            }
            let mut brow: usize = 0;
            let mut top: usize = 0;
            while brow < sw
                invariant
                    self.wf(),
                    size == self.spec_size(),
                    sw == self.spec_sec_width(),
                    sh == self.spec_sec_height(),
                    sw * sh == size,
                    1 <= value <= size,
                    brow <= sw,
                    top == brow * sh,
                    forall|bc: int, br: int|
                        0 <= bc < sh && 0 <= br < brow ==> count_of(
                            #[trigger] self.block_view(bc, br),
                            value,
                        ) == 1,
                decreases sw - brow,
            {
                assert(top + sh <= size) by (nonlinear_arith)
                    requires
                        top == brow * sh,
                        brow + 1 <= sw,
                        sw * sh == size,
                ;
                let mut bcol: usize = 0;
                let mut left: usize = 0;
                while bcol < sh
                    invariant
                        self.wf(),
                        size == self.spec_size(),
                        sw == self.spec_sec_width(),
                        sh == self.spec_sec_height(),
                        sw * sh == size,
                        1 <= value <= size,
                        brow < sw,
                        top == brow * sh,
                        top + sh <= size,
                        bcol <= sh,
                        left == bcol * sw,
                        forall|bc: int, br: int|
                            0 <= bc < sh && 0 <= br < brow ==> count_of(
                                #[trigger] self.block_view(bc, br),
                                value,
                            ) == 1,
                        forall|bc: int|
                            0 <= bc < bcol ==> count_of(
                                #[trigger] self.block_view(bc, brow as int),
                                value,
                            ) == 1,
                    decreases sh - bcol,
                {
                    assert(left + sw <= size) by (nonlinear_arith)
                        requires
                            left == bcol * sw,
                            bcol + 1 <= sh,
                            sw * sh == size,
                    ;
                    assert(sh >= 1);
                    if self.count_in_sec(left, top, value) != 1 {
                        assert(count_of(self.block_view(bcol as int, brow as int), value) != 1);
                        assert(!self.value_solved(value));
                        return false;
                    }
                    bcol = bcol + 1;
                    left = left + sw;
                    assert(left == bcol * sw) by (nonlinear_arith)
                        requires
                            left == (bcol - 1) * sw + sw,
                    ;
                }
                brow = brow + 1;
                top = top + sh;
                assert(top == brow * sh) by (nonlinear_arith)
                    requires
                        top == (brow - 1) * sh + sh,
                ;
            }
            assert(self.value_solved(value));
            v = v + 1;
        }
        true
    }
}

} // verus!
