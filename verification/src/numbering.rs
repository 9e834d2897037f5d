//! Numbering the places of a grid line by line.
//!
//! A grid of `lines` lines, each `width` places long, numbers the place at
//! `offset` on line `line` as `line * width + offset`. The lemmas here say
//! that this numbering and the split of a number into quotient and
//! remainder by `width` undo each other.

use vstd::arithmetic::div_mod::{lemma_fundamental_div_mod, lemma_fundamental_div_mod_converse};
use vstd::prelude::*;

verus! {

/// The place at `offset` on line `line` has a number below `lines * width`.
pub proof fn lemma_step_in_range(lines: int, width: int, line: int, offset: int)
    by (nonlinear_arith)
    requires
        0 <= line < lines,
        0 <= offset < width,
    ensures
        0 <= line * width,
        0 <= line * width + offset < lines * width,
{
}

/// A number `line * width + offset` with `offset` below `width` splits back
/// into `line` and `offset`.
pub proof fn lemma_step_splits(width: int, line: int, offset: int)
    requires
        0 <= offset < width,
    ensures
        (line * width + offset) / width == line,
        (line * width + offset) % width == offset,
{
    lemma_fundamental_div_mod_converse(line * width + offset, width, line, offset);
}

/// A number below `lines * width` splits into a line below `lines` and an
/// offset below `width`.
pub proof fn lemma_step_joins(lines: int, width: int, k: int)
    requires
        width > 0,
        0 <= k < lines * width,
    ensures
        0 <= k / width < lines,
        0 <= k % width < width,
        (k / width) * width + k % width == k,
{
    lemma_fundamental_div_mod(k, width);
    let q = k / width;
    let r = k % width;
    assert(0 <= r < width);
    assert(0 <= q < lines && q * width + r == k) by (nonlinear_arith)
        requires
            width > 0,
            0 <= k < lines * width,
            k == width * q + r,
            0 <= r < width,
    ;
}

} // verus!
