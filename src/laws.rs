//! Laws that relate the board's operations to one another.
use vstd::prelude::*;

use crate::board::{construct_outcome, in_domain, Sudoku};
use crate::error::CreateSudokuError;
use crate::populate::digits_value;
use crate::render::{cell_text, decimal, digit_char, lemma_decimal_len_mono, repeat};

verus! {

/// Construction succeeds exactly when all three dimensions are positive and
/// `sec_width * sec_height == size`; otherwise it fails with the error of the
/// first condition that is violated, in the order size, section width,
/// section height, combination.
pub proof fn law_construction(size: int, sec_width: int, sec_height: int)
    ensures
        construct_outcome(size, sec_width, sec_height) is Ok <==> (size >= 1 && sec_width >= 1
            && sec_height >= 1 && sec_width * sec_height == size),
        size < 1 ==> construct_outcome(size, sec_width, sec_height) == Err::<
            (),
            CreateSudokuError,
        >(CreateSudokuError::InvalidSize),
        size >= 1 && sec_width < 1 ==> construct_outcome(size, sec_width, sec_height) == Err::<
            (),
            CreateSudokuError,
        >(CreateSudokuError::InvalidSecWidth),
        size >= 1 && sec_width >= 1 && sec_height < 1 ==> construct_outcome(
            size,
            sec_width,
            sec_height,
        ) == Err::<(), CreateSudokuError>(CreateSudokuError::InvalidSecHeight),
        size >= 1 && sec_width >= 1 && sec_height >= 1 && sec_width * sec_height != size
            ==> construct_outcome(size, sec_width, sec_height) == Err::<(), CreateSudokuError>(
            CreateSudokuError::InvalidCombination,
        ),
{
}

/// After `set(col, row, v)` on a board `before`, giving `after`, `get(col,
/// row)` returns `v`, for a value and for an empty cell alike.
pub proof fn law_get_after_set(before: Sudoku, after: Sudoku, col: int, row: int, v: Option<u32>)
    requires
        before.wf(),
        0 <= col < before.spec_size(),
        0 <= row < before.spec_size(),
        in_domain(v, before.spec_size() as int),
        after.spec_size() == before.spec_size(),
        after.cells() == before.cells().update(before.index(col, row), v),
    ensures
        after.cell(col, row) == v,
{
    before.lemma_wf();
    crate::board::lemma_index_in_store(before.spec_size() as int, col, row);
}

/// A value may always be placed where it already stands, whatever conflicts
/// the rest of the board holds.
pub proof fn law_place_where_present(s: Sudoku, col: int, row: int, value: u32)
    requires
        s.wf(),
        0 <= col < s.spec_size(),
        0 <= row < s.spec_size(),
        s.cell(col, row) == Some(value),
    ensures
        s.can_place(col, row, value),
{
}

/// `t` without its leading spaces.
pub open spec fn drop_spaces(t: Seq<char>) -> Seq<char>
    decreases t.len(),
{
    if t.len() > 0 && t[0] == ' ' {
        drop_spaces(t.drop_first())
    } else {
        t
    }
}

/// What a rendered field reads as: empty when it is filler, else the number
/// its digits write after the padding.
pub open spec fn read_field(t: Seq<char>) -> Option<u32> {
    if t.len() > 0 && t[0] == '─' {
        None
    } else {
        Some(digits_value(drop_spaces(t)) as u32)
    }
}

impl Sudoku {
    /// Where the field of column `col` begins in a row's body.
    pub open spec fn body_start(&self, col: int) -> int
        decreases col,
    {
        if col <= 0 {
            0
        } else {
            self.body_start(col - 1) + self.spec_field_width() + 1 + if col % (
            self.spec_sec_width() as int) == 0 {
                2int
            } else {
                0int
            }
        }
    }

    /// Where the field of column `col` begins in a rendered row line.
    pub open spec fn field_start(&self, col: int) -> int {
        2 + self.body_start(col)
    }

    /// The field of column `col` in rendered row `row`.
    pub open spec fn rendered_field(&self, col: int, row: int) -> Seq<char> {
        self.row_line(row).subrange(
            self.field_start(col),
            self.field_start(col) + self.spec_field_width(),
        )
    }
}

proof fn lemma_digit_char(d: nat)
    requires
        d < 10,
    ensures
        digit_char(d) as nat - '0' as nat == d,
        '0' <= digit_char(d) <= '9',
{
    let s = seq!['0', '1', '2', '3', '4', '5', '6', '7', '8', '9'];
    assert(s[0] == '0' && s[1] == '1' && s[2] == '2' && s[3] == '3' && s[4] == '4' && s[5]
        == '5' && s[6] == '6' && s[7] == '7' && s[8] == '8' && s[9] == '9');
}

/// The digits of `n` read back as `n`, and begin with a digit.
proof fn lemma_decimal_reads_back(n: nat)
    ensures
        digits_value(decimal(n)) == n,
        decimal(n).len() >= 1,
        '0' <= decimal(n)[0] <= '9',
    decreases n,
{
    if n < 10 {
        lemma_digit_char(n);
        assert(decimal(n).drop_last() =~= Seq::<char>::empty());
        assert(digits_value(Seq::<char>::empty()) == 0);
        assert(decimal(n).last() == digit_char(n));
    } else {
        lemma_decimal_reads_back(n / 10);
        lemma_digit_char(n % 10);
        assert(decimal(n).drop_last() =~= decimal(n / 10));
        assert(decimal(n).last() == digit_char(n % 10));
        assert(decimal(n)[0] == decimal(n / 10)[0]);
        assert(n == (n / 10) * 10 + n % 10);
    }
}

proof fn lemma_drop_padding(k: nat, d: Seq<char>)
    requires
        d.len() >= 1,
        d[0] != ' ',
    ensures
        drop_spaces(repeat(' ', k) + d) == d,
    decreases k,
{
    if k == 0 {
        assert(repeat(' ', k) + d =~= d);
    } else {
        assert((repeat(' ', k) + d).drop_first() =~= repeat(' ', (k - 1) as nat) + d);
        lemma_drop_padding((k - 1) as nat, d);
    }
}

/// A field of width `w` reads back as the value it was made from.
proof fn lemma_field_reads_back(v: Option<u32>, w: nat)
    requires
        w >= 1,
        v matches Some(x) ==> decimal(x as nat).len() <= w,
    ensures
        read_field(cell_text(v, w)) == v,
        cell_text(v, w).len() == w,
{
    match v {
        Some(x) => {
            lemma_decimal_reads_back(x as nat);
            let k = (w - decimal(x as nat).len()) as nat;
            lemma_drop_padding(k, decimal(x as nat));
            let t = cell_text(v, w);
            if k > 0 {
                assert(t[0] == ' ');
            } else {
                assert(t[0] == decimal(x as nat)[0]);
            }
        },
        None => {},
    }
}

proof fn lemma_body_start_mono(s: Sudoku, a: int, b: int)
    requires
        0 <= a <= b,
    ensures
        0 <= s.body_start(a) <= s.body_start(b),
        a < b ==> s.body_start(a) + s.spec_field_width() + 1 <= s.body_start(b),
    decreases b,
{
    if a < b {
        lemma_body_start_mono(s, a, b - 1);
    } else if a > 0 {
        lemma_body_start_mono(s, a - 1, a - 1);
    }
}

proof fn lemma_row_body_fields(s: Sudoku, row: int, k: int)
    requires
        s.wf(),
        0 <= row < s.spec_size(),
        1 <= k <= s.spec_size(),
    ensures
        s.row_body(row, k).len() == s.body_start(k - 1) + s.spec_field_width(),
        forall|c: int|
            0 <= c < k ==> s.row_body(row, k).subrange(
                s.body_start(c),
                s.body_start(c) + s.spec_field_width(),
            ) == cell_text(#[trigger] s.cell(c, row), s.spec_field_width()),
    decreases k,
{
    s.lemma_wf();
    let w = s.spec_field_width();
    let n = s.spec_size();
    let c0 = k - 1;
    assert(in_domain(s.cell(c0, row), n as int));
    if let Some(x) = s.cell(c0, row) {
        lemma_decimal_len_mono(x as nat, n);
    }
    lemma_decimal_len_mono(1, n);
    lemma_field_reads_back(s.cell(c0, row), w);
    let piece = s.row_piece(c0, row);
    if k == 1 {
        assert(s.row_body(row, 1) =~= cell_text(s.cell(0, row), w));
        assert forall|c: int| 0 <= c < k implies s.row_body(row, k).subrange(
            s.body_start(c),
            s.body_start(c) + w,
        ) == cell_text(#[trigger] s.cell(c, row), w) by {
            assert(c == 0);
            assert(s.row_body(row, k).subrange(0, w as int) =~= s.row_body(row, k));
        }
    } else {
        lemma_row_body_fields(s, row, k - 1);
        let prev = s.row_body(row, k - 1);
        let lead = piece.len() - w;
        assert(s.row_body(row, k) == prev + piece);
        assert(s.body_start(c0) == prev.len() + lead);
        assert forall|c: int| 0 <= c < k implies s.row_body(row, k).subrange(
            s.body_start(c),
            s.body_start(c) + w,
        ) == cell_text(#[trigger] s.cell(c, row), w) by {
            if c < k - 1 {
                lemma_body_start_mono(s, c, k - 2);
                assert(s.row_body(row, k).subrange(s.body_start(c), s.body_start(c) + w)
                    =~= prev.subrange(s.body_start(c), s.body_start(c) + w));
            } else {
                assert(s.row_body(row, k).subrange(s.body_start(c), s.body_start(c) + w)
                    =~= cell_text(s.cell(c0, row), w));
            }
        }
    }
}

/// Reading back each field of the rendered rows gives the board's cells:
/// the field of column `col` in rendered row `row` holds exactly the value at
/// `(col, row)`, and filler exactly where that cell is empty.
pub proof fn law_render_reads_back(s: Sudoku, col: int, row: int)
    requires
        s.wf(),
        0 <= col < s.spec_size(),
        0 <= row < s.spec_size(),
    ensures
        read_field(s.rendered_field(col, row)) == s.cell(col, row),
{
    s.lemma_wf();
    let w = s.spec_field_width();
    let n = s.spec_size();
    lemma_row_body_fields(s, row, n as int);
    lemma_body_start_mono(s, col, n - 1);
    assert(in_domain(s.cell(col, row), n as int));
    if let Some(x) = s.cell(col, row) {
        lemma_decimal_len_mono(x as nat, n);
    }
    lemma_decimal_len_mono(1, n);
    lemma_field_reads_back(s.cell(col, row), w);
    let body = s.row_body(row, n as int);
    assert(s.rendered_field(col, row) =~= body.subrange(s.body_start(col), s.body_start(col) + w));
}

} // verus!
