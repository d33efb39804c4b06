//! Section arithmetic: where the section that holds a cell begins, and why
//! sections tile the board.
use vstd::arithmetic::div_mod::{lemma_fundamental_div_mod, lemma_fundamental_div_mod_converse};
use vstd::prelude::*;

verus! {

/// The first column (or row) of the section that holds column (or row) `x`,
/// for sections `step` cells wide (or high).
pub open spec fn section_start(x: int, step: int) -> int {
    (x / step) * step
}

/// The section that holds `x` lies inside `0..step * count` when `x` does.
pub proof fn lemma_section_fits(x: int, step: int, count: int)
    requires
        0 <= x < step * count,
        step >= 1,
        count >= 1,
    ensures
        0 <= section_start(x, step) <= x,
        section_start(x, step) + step <= step * count,
        section_start(x, step) % step == 0,
        x / step < count,
{
    let q = x / step;
    lemma_fundamental_div_mod(x, step);
    assert(0 <= x % step < step);
    assert(q >= 0) by (nonlinear_arith)
        requires
            x == step * q + (x % step),
            0 <= x,
            x % step < step,
            step >= 1,
    ;
    assert(q < count) by (nonlinear_arith)
        requires
            x == step * q + (x % step),
            x < step * count,
            0 <= x % step,
            step >= 1,
    ;
    assert(q * step + step <= step * count) by (nonlinear_arith)
        requires
            q + 1 <= count,
            step >= 1,
    ;
    assert(step * q == q * step) by (nonlinear_arith);
    lemma_fundamental_div_mod_converse(q * step, step, q, 0);
}

/// A position `a * step + b` with `b < step` splits back into `a` and `b`.
pub proof fn lemma_split_position(a: int, b: int, step: int)
    requires
        a >= 0,
        0 <= b < step,
    ensures
        (a * step + b) / step == a,
        (a * step + b) % step == b,
{
    lemma_fundamental_div_mod_converse(a * step + b, step, a, b);
}

} // verus!
