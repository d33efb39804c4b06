//! Bulk population from text: one line per row, `size` whitespace-separated
//! tokens per line, each `_` (empty) or a decimal number in `1..=size`.
use vstd::prelude::*;

use crate::board::{in_domain, Sudoku};
use crate::error::PopulateError;

verus! {

/// Unicode white space, as `char::is_whitespace` recognises it.
pub open spec fn is_space(c: char) -> bool {
    ||| ('\u{9}' <= c && c <= '\u{d}')
    ||| c == ' '
    ||| c == '\u{85}'
    ||| c == '\u{a0}'
    ||| c == '\u{1680}'
    ||| ('\u{2000}' <= c && c <= '\u{200a}')
    ||| c == '\u{2028}'
    ||| c == '\u{2029}'
    ||| c == '\u{202f}'
    ||| c == '\u{205f}'
    ||| c == '\u{3000}'
}

/// The pieces of `s` between newline characters (one more than there are
/// newlines).
pub open spec fn split_lines(s: Seq<char>) -> Seq<Seq<char>>
    decreases s.len(),
{
    if s.len() == 0 {
        seq![Seq::empty()]
    } else {
        let prev = split_lines(s.drop_last());
        if s.last() == '\n' {
            prev.push(Seq::empty())
        } else {
            prev.update(prev.len() - 1, prev.last().push(s.last()))
        }
    }
}

/// The maximal runs of non-space characters of `s`, in order.
pub open spec fn split_words(s: Seq<char>) -> Seq<Seq<char>>
    decreases s.len(),
{
    if s.len() == 0 {
        Seq::empty()
    } else {
        let prev = split_words(s.drop_last());
        let c = s.last();
        if is_space(c) {
            prev
        } else if s.len() >= 2 && !is_space(s[s.len() - 2]) {
            prev.update(prev.len() - 1, prev.last().push(c))
        } else {
            prev.push(seq![c])
        }
    }
}

/// An ASCII decimal digit.
pub open spec fn is_digit(c: char) -> bool {
    '0' <= c && c <= '9'
}

/// The number that the decimal digits `t` write.
pub open spec fn digits_value(t: Seq<char>) -> nat
    decreases t.len(),
{
    if t.len() == 0 {
        0
    } else {
        digits_value(t.drop_last()) * 10 + (t.last() as nat - '0' as nat) as nat
    }
}

/// The digits of a numeric token: what follows an optional leading `+`.
pub open spec fn unsigned_part(t: Seq<char>) -> Seq<char> {
    if t.len() > 0 && t[0] == '+' {
        t.drop_first()
    } else {
        t
    }
}

/// What one token stands for on a board of `size` symbols: `_` is empty, a
/// decimal number (optionally after `+`) is a value that must lie in
/// `1..=size`, anything else is not a number.
pub open spec fn token_outcome(t: Seq<char>, size: nat) -> Result<Option<u32>, PopulateError> {
    let u = unsigned_part(t);
    if t == seq!['_'] {
        Ok(None)
    } else if u.len() > 0 && forall|i: int| 0 <= i < u.len() ==> is_digit(#[trigger] u[i]) {
        if 1 <= digits_value(u) <= size {
            Ok(Some(digits_value(u) as u32))
        } else {
            Err(PopulateError::OutOfRange)
        }
    } else {
        Err(PopulateError::NotANumber)
    }
}

/// The values of a run of tokens, or the first token's error.
pub open spec fn tokens_outcome(ws: Seq<Seq<char>>, size: nat) -> Result<
    Seq<Option<u32>>,
    PopulateError,
>
    decreases ws.len(),
{
    if ws.len() == 0 {
        Ok(Seq::empty())
    } else {
        match tokens_outcome(ws.drop_last(), size) {
            Err(e) => Err(e),
            Ok(vs) => match token_outcome(ws.last(), size) {
                Err(e) => Err(e),
                Ok(v) => Ok(vs.push(v)),
            },
        }
    }
}

/// The values of one line: it must hold exactly `size` tokens.
pub open spec fn line_outcome(line: Seq<char>, size: nat) -> Result<
    Seq<Option<u32>>,
    PopulateError,
> {
    if split_words(line).len() != size {
        Err(PopulateError::TokenCount)
    } else {
        tokens_outcome(split_words(line), size)
    }
}

/// The values of successive lines, row by row, or the first line's error.
pub open spec fn lines_outcome(ls: Seq<Seq<char>>, size: nat) -> Result<
    Seq<Option<u32>>,
    PopulateError,
>
    decreases ls.len(),
{
    if ls.len() == 0 {
        Ok(Seq::empty())
    } else {
        match lines_outcome(ls.drop_last(), size) {
            Err(e) => Err(e),
            Ok(vs) => match line_outcome(ls.last(), size) {
                Err(e) => Err(e),
                Ok(row) => Ok(vs + row),
            },
        }
    }
}

/// The cells, row by row, that a population text gives a board of `size`
/// symbols, or why the text is rejected.
pub open spec fn parse_board(s: Seq<char>, size: nat) -> Result<Seq<Option<u32>>, PopulateError> {
    if split_lines(s).len() != size {
        Err(PopulateError::LineCount)
    } else {
        lines_outcome(split_lines(s), size)
    }
}

proof fn lemma_tokens_error_persists(ws: Seq<Seq<char>>, k: int, size: nat)
    requires
        0 <= k <= ws.len(),
        tokens_outcome(ws.take(k), size) is Err,
    ensures
        tokens_outcome(ws, size) == tokens_outcome(ws.take(k), size),
    decreases ws.len(),
{
    if k == ws.len() {
        assert(ws.take(k) =~= ws);
    } else {
        assert(ws.drop_last().take(k) =~= ws.take(k));
        lemma_tokens_error_persists(ws.drop_last(), k, size);
    }
}

proof fn lemma_lines_error_persists(ls: Seq<Seq<char>>, k: int, size: nat)
    requires
        0 <= k <= ls.len(),
        lines_outcome(ls.take(k), size) is Err,
    ensures
        lines_outcome(ls, size) == lines_outcome(ls.take(k), size),
    decreases ls.len(),
{
    if k == ls.len() {
        assert(ls.take(k) =~= ls);
    } else {
        assert(ls.drop_last().take(k) =~= ls.take(k));
        lemma_lines_error_persists(ls.drop_last(), k, size);
    }
}

/// Relies on `str::chars`: the characters of `s`, in order.
#[verifier::external_body]
fn chars_of(s: &str) -> (r: Vec<char>)
    ensures
        r@ == s@,
{
    s.chars().collect()
}

/// Whether `c` is white space (`is_space`).
pub fn char_is_space(c: char) -> (r: bool)
    ensures
        r == is_space(c),
{
    ('\u{9}' <= c && c <= '\u{d}') || c == ' ' || c == '\u{85}' || c == '\u{a0}' || c == '\u{1680}'
        || ('\u{2000}' <= c && c <= '\u{200a}') || c == '\u{2028}' || c == '\u{2029}' || c
        == '\u{202f}' || c == '\u{205f}' || c == '\u{3000}'
}

/// The lines of `cs`, split at each newline.
pub fn lines_of(cs: &Vec<char>) -> (r: Vec<Vec<char>>)
    ensures
        r@.len() == split_lines(cs@).len(),
        forall|j: int| 0 <= j < r@.len() ==> #[trigger] r@[j]@ == split_lines(cs@)[j],
{
    let mut done: Vec<Vec<char>> = Vec::new();
    let mut cur: Vec<char> = Vec::new();
    let mut i: usize = 0;
    assert(cs@.take(0) =~= Seq::<char>::empty());
    while i < cs.len()
        invariant
            i <= cs@.len(),
            split_lines(cs@.take(i as int)).len() == done@.len() + 1,
            forall|j: int|
                0 <= j < done@.len() ==> #[trigger] done@[j]@ == split_lines(cs@.take(i as int))[j],
            split_lines(cs@.take(i as int)).last() == cur@,
        decreases cs@.len() - i,
    {
        let c = cs[i];
        assert(cs@.take(i as int + 1).drop_last() =~= cs@.take(i as int));
        if c == '\n' {
            done.push(cur);
            cur = Vec::new();
        } else {
            cur.push(c);
        }
        i = i + 1;
    }
    assert(cs@.take(i as int) =~= cs@);
    done.push(cur);
    done
}

/// The words of `cs`: its maximal runs of non-space characters.
pub fn words_of(cs: &Vec<char>) -> (r: Vec<Vec<char>>)
    ensures
        r@.len() == split_words(cs@).len(),
        forall|j: int| 0 <= j < r@.len() ==> #[trigger] r@[j]@ == split_words(cs@)[j],
{
    let mut done: Vec<Vec<char>> = Vec::new();
    let mut cur: Vec<char> = Vec::new();
    let mut in_word = false;
    let mut i: usize = 0;
    assert(cs@.take(0) =~= Seq::<char>::empty());
    while i < cs.len()
        invariant
            i <= cs@.len(),
            in_word == (i > 0 && !is_space(cs@[i - 1])),
            split_words(cs@.take(i as int)).len() == done@.len() + if in_word {
                1int
            } else {
                0int
            },
            forall|j: int|
                0 <= j < done@.len() ==> #[trigger] done@[j]@ == split_words(cs@.take(i as int))[j],
            in_word ==> split_words(cs@.take(i as int)).last() == cur@,
        decreases cs@.len() - i,
    {
        let c = cs[i];
        let ghost pre = cs@.take(i as int + 1);
        assert(pre.drop_last() =~= cs@.take(i as int));
        if i > 0 {
            assert(pre[pre.len() - 2] == cs@[i - 1]);
        }
        if char_is_space(c) {
            if in_word {
                done.push(cur);
                cur = Vec::new();
            }
            in_word = false;
        } else if in_word {
            cur.push(c);
        } else {
            cur = Vec::new();
            cur.push(c);
            assert(cur@ =~= seq![c]);
            in_word = true;
        }
        i = i + 1;
    }
    assert(cs@.take(i as int) =~= cs@);
    if in_word {
        done.push(cur);
    }
    done
}

/// What one token stands for on a board of `size` symbols.
pub fn parse_token(t: &Vec<char>, size: usize) -> (r: Result<Option<u32>, PopulateError>)
    requires
        size <= u32::MAX,
    ensures
        r == token_outcome(t@, size as nat),
{
    if t.len() == 1 && t[0] == '_' {
        assert(t@ =~= seq!['_']);
        return Ok(None);
    }
    let start: usize = if t.len() > 0 && t[0] == '+' {
        1
    } else {
        0
    };
    let ghost u = unsigned_part(t@);
    assert(u =~= t@.skip(start as int));
    if t.len() == start {
        return Err(PopulateError::NotANumber);
    }
    // The value read so far, held at `size + 1` once it exceeds `size`.
    let mut acc: u64 = 0;
    let mut i: usize = start;
    assert(u.take(0) =~= Seq::<char>::empty());
    while i < t.len()
        invariant
            start <= i <= t@.len(),
            u == t@.skip(start as int),
            u == unsigned_part(t@),
            size <= u32::MAX,
            t@ != seq!['_'],
            forall|j: int| 0 <= j < i - start ==> is_digit(#[trigger] u[j]),
            acc == if digits_value(u.take(i - start)) > size {
                size as nat + 1
            } else {
                digits_value(u.take(i - start))
            },
        decreases t@.len() - i,
    {
        let c = t[i];
        assert(c == u[i - start]);
        if !('0' <= c && c <= '9') {
            assert(!is_digit(u[i - start]));
            return Err(PopulateError::NotANumber);
        }
        assert(u.take(i - start + 1).drop_last() =~= u.take(i - start));
        let d = (c as u32 - '0' as u32) as u64;
        if acc > size as u64 {
            acc = size as u64 + 1;
        } else {
            acc = acc * 10 + d;
            if acc > size as u64 {
                acc = size as u64 + 1;
            }
        }
        i = i + 1;
    }
    assert(u.take(i - start) =~= u);
    if acc >= 1 && acc <= size as u64 {
        Ok(Some(acc as u32))
    } else {
        Err(PopulateError::OutOfRange)
    }
}

impl Sudoku {
    /// Fills the board from text: `size` lines, each of `size`
    /// whitespace-separated tokens, `_` for an empty cell or a number in
    /// `1..=size`, set row by row. Rejected text leaves the board unchanged.
    pub fn populate_from_str(&mut self, s: &str) -> (r: Result<(), PopulateError>)
        requires
            old(self).wf(),
        ensures
            final(self).wf(),
            final(self).spec_size() == old(self).spec_size(),
            final(self).spec_sec_width() == old(self).spec_sec_width(),
            final(self).spec_sec_height() == old(self).spec_sec_height(),
            match parse_board(s@, old(self).spec_size()) {
                Ok(cells) => r is Ok && final(self).cells() == cells,
                Err(e) => r == Err::<(), PopulateError>(e) && final(self).cells() == old(
                    self,
                ).cells(),
            },
    {
        proof {
            self.lemma_wf();
        }
        let size = self.size();
        let ghost n = size as nat;
        let cs = chars_of(s);
        let lines = lines_of(&cs);
        let ghost sl = split_lines(s@);
        if lines.len() != size {
            return Err(PopulateError::LineCount);
        }
        let mut vals: Vec<Option<u32>> = Vec::new();
        let mut row: usize = 0;
        assert(sl.take(0) =~= Seq::<Seq<char>>::empty());
        while row < size
            invariant
                self.wf(),
                *self == *old(self),
                size == self.spec_size(),
                n == size,
                size <= u32::MAX,
                sl == split_lines(s@),
                sl.len() == size,
                lines@.len() == size,
                forall|j: int| 0 <= j < lines@.len() ==> #[trigger] lines@[j]@ == sl[j],
                row <= size,
                lines_outcome(sl.take(row as int), n) == Ok::<Seq<Option<u32>>, PopulateError>(
                    vals@,
                ),
                vals@.len() == row * size,
                forall|j: int| 0 <= j < vals@.len() ==> in_domain(#[trigger] vals@[j], size as int),
            decreases size - row,
        {
            assert(sl.take(row as int + 1).drop_last() =~= sl.take(row as int));
            let ws = words_of(&lines[row]);
            let ghost sw = split_words(sl[row as int]);
            if ws.len() != size {
                proof {
                    lemma_lines_error_persists(sl, row as int + 1, n);
                }
                return Err(PopulateError::TokenCount);
            }
            let mut rowv: Vec<Option<u32>> = Vec::new();
            let mut k: usize = 0;
            assert(sw.take(0) =~= Seq::<Seq<char>>::empty());
            while k < size
                invariant
                    self.wf(),
                    *self == *old(self),
                    size == self.spec_size(),
                    row < size,
                    sl == split_lines(s@),
                    sl.len() == size,
                    sw == split_words(sl[row as int]),
                    lines_outcome(sl.take(row as int), n) == Ok::<
                        Seq<Option<u32>>,
                        PopulateError,
                    >(vals@),
                    size <= u32::MAX,
                    n == size,
                    sw.len() == size,
                    ws@.len() == size,
                    forall|j: int| 0 <= j < ws@.len() ==> #[trigger] ws@[j]@ == sw[j],
                    k <= size,
                    tokens_outcome(sw.take(k as int), n) == Ok::<
                        Seq<Option<u32>>,
                        PopulateError,
                    >(rowv@),
                    rowv@.len() == k,
                    forall|j: int|
                        0 <= j < rowv@.len() ==> in_domain(#[trigger] rowv@[j], size as int),
                decreases size - k,
            {
                assert(sw.take(k as int + 1).drop_last() =~= sw.take(k as int));
                match parse_token(&ws[k], size) {
                    Err(e) => {
                        proof {
                            assert(sw.take(k as int + 1).last() == sw[k as int]);
                            lemma_tokens_error_persists(sw, k as int + 1, n);
                            assert(line_outcome(sl[row as int], n) == Err::<
                                Seq<Option<u32>>,
                                PopulateError,
                            >(e));
                            assert(sl.take(row as int + 1).drop_last() =~= sl.take(row as int));
                            assert(sl.take(row as int + 1).last() == sl[row as int]);
                            lemma_lines_error_persists(sl, row as int + 1, n);
                        }
                        return Err(e);
                    },
                    Ok(v) => {
                        rowv.push(v);
                    },
                }
                k = k + 1;
            }
            assert(sw.take(k as int) =~= sw);
            vals.append(&mut rowv);
            assert((row + 1) * size == row * size + size) by (nonlinear_arith);
            row = row + 1;
        }
        assert(sl.take(row as int) =~= sl);
        let ghost before = self.cells();
        let ghost sw0 = self.spec_sec_width();
        let ghost sh0 = self.spec_sec_height();
        let total: usize = size * size;
        let mut idx: usize = 0;
        while idx < total
            invariant
                self.wf(),
                size == self.spec_size(),
                size >= 1,
                sw0 == self.spec_sec_width(),
                sh0 == self.spec_sec_height(),
                total == size * size,
                vals@.len() == total,
                forall|j: int| 0 <= j < vals@.len() ==> in_domain(#[trigger] vals@[j], size as int),
                before.len() == total,
                self.cells().len() == total,
                idx <= total,
                forall|j: int| 0 <= j < idx ==> #[trigger] self.cells()[j] == vals@[j],
                forall|j: int| idx <= j < total ==> #[trigger] self.cells()[j] == before[j],
            decreases total - idx,
        {
            let col = idx % size;
            let r = idx / size;
            proof {
                vstd::arithmetic::div_mod::lemma_fundamental_div_mod(idx as int, size as int);
                assert(r < size) by (nonlinear_arith)
                    requires
                        idx == size * r + col,
                        idx < size * size,
                        0 <= col,
                        size > 0,
                ;
                assert(r * size == size * r) by (nonlinear_arith);
            }
            self.set(col, r, vals[idx]);
            idx = idx + 1;
        }
        assert(self.cells() =~= vals@);
        Ok(())
    }
}

} // verus!
