//! The box-drawn text rendering of a board.
use vstd::prelude::*;

use crate::board::{in_domain, Sudoku};

verus! {

/// The character of decimal digit `d`.
pub open spec fn digit_char(d: nat) -> char {
    seq!['0', '1', '2', '3', '4', '5', '6', '7', '8', '9'][d as int]
}

/// The decimal digits of `n`, most significant first, without leading zeros.
pub open spec fn decimal(n: nat) -> Seq<char>
    decreases n,
{
    if n < 10 {
        seq![digit_char(n)]
    } else {
        decimal(n / 10).push(digit_char(n % 10))
    }
}

/// The width of a cell's field: the number of digits of `size`.
pub open spec fn field_width(size: nat) -> nat {
    decimal(size).len()
}

/// `k` copies of `c`.
pub open spec fn repeat(c: char, k: nat) -> Seq<char> {
    Seq::new(k, |i: int| c)
}

/// A cell's field of width `w`: a value right-aligned, or `w` fillers.
pub open spec fn cell_text(v: Option<u32>, w: nat) -> Seq<char> {
    match v {
        Some(x) => repeat(' ', (w - decimal(x as nat).len()) as nat) + decimal(x as nat),
        None => repeat('─', w),
    }
}

/// A horizontal line shaped after `line`: each vertical bar becomes `l` at
/// the left end, `r` at the right end and `m` inside; all else becomes `─`.
pub open spec fn border(line: Seq<char>, l: char, m: char, r: char) -> Seq<char> {
    Seq::new(
        line.len(),
        |i: int|
            if line[i] == '│' {
                if i == 0 {
                    l
                } else if i == line.len() - 1 {
                    r
                } else {
                    m
                }
            } else {
                '─'
            },
    )
}

/// A larger number has at least as many digits, and every number has one.
pub proof fn lemma_decimal_len_mono(a: nat, b: nat)
    requires
        a <= b,
    ensures
        1 <= decimal(a).len() <= decimal(b).len(),
    decreases b,
{
    if b >= 10 && a >= 10 {
        lemma_decimal_len_mono(a / 10, b / 10);
    } else if b >= 10 {
        lemma_decimal_len_mono(0, b / 10);
    }
}

/// The decimal digits of `n`.
pub fn decimal_chars(n: u64) -> (r: Vec<char>)
    ensures
        r@ == decimal(n as nat),
    decreases n,
{
    let digits: [char; 10] = ['0', '1', '2', '3', '4', '5', '6', '7', '8', '9'];
    if n < 10 {
        let mut r: Vec<char> = Vec::new();
        r.push(digits[n as usize]);
        assert(r@ =~= decimal(n as nat));
        r
    } else {
        let mut r = decimal_chars(n / 10);
        r.push(digits[(n % 10) as usize]);
        r
    }
}

/// Appends `more` to `out`.
fn push_all(out: &mut Vec<char>, more: &Vec<char>)
    ensures
        final(out)@ == old(out)@ + more@,
{
    let mut i: usize = 0;
    while i < more.len()
        invariant
            i <= more@.len(),
            out@ == old(out)@ + more@.take(i as int),
        decreases more@.len() - i,
    {
        out.push(more[i]);
        i = i + 1;
        assert(out@ =~= old(out)@ + more@.take(i as int));
    }
    assert(more@.take(i as int) =~= more@);
}

/// Appends `k` copies of `c` to `out`.
fn push_repeat(out: &mut Vec<char>, c: char, k: usize)
    ensures
        final(out)@ == old(out)@ + repeat(c, k as nat),
{
    let mut i: usize = 0;
    while i < k
        invariant
            i <= k,
            out@ == old(out)@ + repeat(c, i as nat),
        decreases k - i,
    {
        out.push(c);
        i = i + 1;
        assert(out@ =~= old(out)@ + repeat(c, i as nat));
    }
}

/// A cell's field of width `w` (`cell_text`).
pub fn cell_chars(v: Option<u32>, w: usize) -> (r: Vec<char>)
    requires
        v matches Some(x) ==> decimal(x as nat).len() <= w,
    ensures
        r@ == cell_text(v, w as nat),
{
    let mut r: Vec<char> = Vec::new();
    match v {
        Some(x) => {
            let d = decimal_chars(x as u64);
            push_repeat(&mut r, ' ', w - d.len());
            push_all(&mut r, &d);
        },
        None => {
            push_repeat(&mut r, '─', w);
        },
    }
    assert(r@ =~= cell_text(v, w as nat));
    r
}

/// A horizontal line shaped after `line` (`border`).
pub fn border_chars(line: &Vec<char>, l: char, m: char, r: char) -> (out: Vec<char>)
    ensures
        out@ == border(line@, l, m, r),
{
    let mut out: Vec<char> = Vec::new();
    let mut i: usize = 0;
    while i < line.len()
        invariant
            i <= line@.len(),
            out@ == border(line@, l, m, r).take(i as int),
        decreases line@.len() - i,
    {
        let c = line[i];
        let ch = if c == '│' {
            if i == 0 {
                l
            } else if i == line.len() - 1 {
                r
            } else {
                m
            }
        } else {
            '─'
        };
        out.push(ch);
        i = i + 1;
        assert(out@ =~= border(line@, l, m, r).take(i as int));
    }
    assert(border(line@, l, m, r).take(i as int) =~= border(line@, l, m, r));
    out
}

/// Relies on `String`'s `FromIterator<&char>`: the string of the characters
/// of `v`, in order.
#[verifier::external_body]
fn string_of(v: &Vec<char>) -> (r: String)
    ensures
        r@ == v@,
{
    v.iter().collect()
}

impl Sudoku {
    /// The field width of this board.
    pub open spec fn spec_field_width(&self) -> nat {
        field_width(self.spec_size())
    }

    /// What column `col` adds to the body of row `row`: a space before every
    /// column but the first, a bar and a space before a column that starts a
    /// section, then the cell's field.
    pub open spec fn row_piece(&self, col: int, row: int) -> Seq<char> {
        let sep = if col > 0 {
            seq![' ']
        } else {
            Seq::empty()
        };
        let bar = if col > 0 && col % (self.spec_sec_width() as int) == 0 {
            seq!['│', ' ']
        } else {
            Seq::empty()
        };
        sep + bar + cell_text(self.cell(col, row), self.spec_field_width())
    }

    /// The first `k` columns of the body of row `row`.
    pub open spec fn row_body(&self, row: int, k: int) -> Seq<char>
        decreases k,
    {
        if k <= 0 {
            Seq::empty()
        } else {
            self.row_body(row, k - 1) + self.row_piece(k - 1, row)
        }
    }

    /// Row `row` as rendered, framed by a bar and a space on each side.
    pub open spec fn row_line(&self, row: int) -> Seq<char> {
        seq!['│', ' '] + self.row_body(row, self.spec_size() as int) + seq![' ', '│']
    }

    /// The line above row 0.
    pub open spec fn top_line(&self) -> Seq<char> {
        border(self.row_line(0), '┌', '┬', '┐')
    }

    /// The line above each later row that starts a section.
    pub open spec fn middle_line(&self) -> Seq<char> {
        border(self.row_line(0), '├', '┼', '┤')
    }

    /// The line below the last row.
    pub open spec fn bottom_line(&self) -> Seq<char> {
        border(self.row_line(0), '└', '┴', '┘')
    }

    /// The rendering of the first `k` rows, each line ended by a newline,
    /// with the line above each row that starts a section.
    pub open spec fn rendered_rows(&self, k: int) -> Seq<char>
        decreases k,
    {
        if k <= 0 {
            Seq::empty()
        } else {
            let row = k - 1;
            let above = if row % (self.spec_sec_height() as int) == 0 {
                (if row == 0 {
                    self.top_line()
                } else {
                    self.middle_line()
                }) + seq!['\n']
            } else {
                Seq::empty()
            };
            self.rendered_rows(k - 1) + above + self.row_line(row) + seq!['\n']
        }
    }

    /// The whole rendering: every row, then the bottom line.
    pub open spec fn rendered(&self) -> Seq<char> {
        self.rendered_rows(self.spec_size() as int) + self.bottom_line() + seq!['\n']
    }

    /// Row `row` as rendered (`row_line`).
    fn row_line_chars(&self, row: usize, w: usize) -> (r: Vec<char>)
        requires
            self.wf(),
            row < self.spec_size(),
            w == self.spec_field_width(),
        ensures
            r@ == self.row_line(row as int),
    {
        proof {
            self.lemma_wf();
        }
        let size = self.size();
        let sw = self.sec_width();
        let mut r: Vec<char> = Vec::new();
        r.push('│');
        r.push(' ');
        let mut col: usize = 0;
        assert(r@ =~= seq!['│', ' '] + self.row_body(row as int, 0));
        while col < size
            invariant
                self.wf(),
                size == self.spec_size(),
                sw == self.spec_sec_width(),
                sw >= 1,
                w == self.spec_field_width(),
                row < size,
                col <= size,
                r@ == seq!['│', ' '] + self.row_body(row as int, col as int),
            decreases size - col,
        {
            let v = self.get(col, row);
            proof {
                self.lemma_wf();
                assert(in_domain(self.cell(col as int, row as int), size as int));
                if let Some(x) = v {
                    lemma_decimal_len_mono(x as nat, size as nat);
                }
            }
            if col > 0 {
                r.push(' ');
            }
            if col > 0 && col % sw == 0 {
                r.push('│');
                r.push(' ');
            }
            let t = cell_chars(v, w);
            push_all(&mut r, &t);
            assert(r@ =~= seq!['│', ' '] + self.row_body(row as int, col as int + 1));
            col = col + 1;
        }
        r.push(' ');
        r.push('│');
        assert(r@ =~= self.row_line(row as int));
        r
    }

    /// The board as box-drawn text: a line per row, a frame around the
    /// board, and bars and lines between sections.
    pub fn render(&self) -> (r: String)
        requires
            self.wf(),
        ensures
            r@ == self.rendered(),
    {
        proof {
            self.lemma_wf();
        }
        let size = self.size();
        let sh = self.sec_height();
        let w = decimal_chars(size as u64).len();
        let first = self.row_line_chars(0, w);
        let top = border_chars(&first, '┌', '┬', '┐');
        let middle = border_chars(&first, '├', '┼', '┤');
        let bottom = border_chars(&first, '└', '┴', '┘');
        let mut out: Vec<char> = Vec::new();
        let mut row: usize = 0;
        while row < size
            invariant
                self.wf(),
                size == self.spec_size(),
                sh == self.spec_sec_height(),
                sh >= 1,
                w == self.spec_field_width(),
                top@ == self.top_line(),
                middle@ == self.middle_line(),
                row <= size,
                out@ == self.rendered_rows(row as int),
            decreases size - row,
        {
            if row % sh == 0 {
                if row == 0 {
                    push_all(&mut out, &top);
                } else {
                    push_all(&mut out, &middle);
                }
                out.push('\n');
            }
            let line = self.row_line_chars(row, w);
            push_all(&mut out, &line);
            out.push('\n');
            assert(out@ =~= self.rendered_rows(row as int + 1));
            row = row + 1;
        }
        push_all(&mut out, &bottom);
        out.push('\n');
        string_of(&out)
    }
}

} // verus!
