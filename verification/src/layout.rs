//! Arithmetic of row-major layouts with three axes.
//!
//! An element with coordinates `(a, b, c)` in an array of axis lengths
//! `(na, nb, nc)` lies at offset `(a * nb + b) * nc + c`.

use vstd::arithmetic::div_mod::lemma_fundamental_div_mod_converse;
use vstd::prelude::*;

verus! {

/// Offset of the element `(a, b, c)` in an array whose two inner axes have
/// lengths `nb` and `nc`.
pub open spec fn offset3(a: int, b: int, c: int, nb: int, nc: int) -> int {
    (a * nb + b) * nc + c
}

/// Offsets of elements inside the array are inside its storage.
pub proof fn lemma_offset_bounds(a: int, b: int, c: int, na: int, nb: int, nc: int)
    requires
        0 <= a < na,
        0 <= b < nb,
        0 <= c < nc,
    ensures
        0 <= a * nb + b < na * nb,
        0 <= offset3(a, b, c, nb, nc) < na * nb * nc,
{
    let row = a * nb + b;
    assert(0 <= row < na * nb) by (nonlinear_arith)
        requires
            0 <= a < na,
            0 <= b < nb,
            row == a * nb + b,
    ;
    let rows = na * nb;
    assert(0 <= row * nc + c < rows * nc) by (nonlinear_arith)
        requires
            0 <= row < rows,
            0 <= c < nc,
    ;
}

/// The coordinates of an element can be read back from its offset.
pub proof fn lemma_offset_split(a: int, b: int, c: int, nb: int, nc: int)
    requires
        0 <= a,
        0 <= b < nb,
        0 <= c < nc,
    ensures
        offset3(a, b, c, nb, nc) / (nb * nc) == a,
        (offset3(a, b, c, nb, nc) / nc) % nb == b,
        offset3(a, b, c, nb, nc) % nc == c,
        0 <= offset3(a, b, c, nb, nc),
{
    let k = offset3(a, b, c, nb, nc);
    let row = a * nb + b;
    lemma_fundamental_div_mod_converse(k, nc, row, c);
    lemma_fundamental_div_mod_converse(row, nb, a, b);
    let inner = b * nc + c;
    assert(0 <= inner < nb * nc) by (nonlinear_arith)
        requires
            0 <= b < nb,
            0 <= c < nc,
            inner == b * nc + c,
    ;
    assert(k == a * (nb * nc) + inner) by (nonlinear_arith)
        requires
            k == (a * nb + b) * nc + c,
            inner == b * nc + c,
    ;
    lemma_fundamental_div_mod_converse(k, nb * nc, a, inner);
    assert(0 <= k) by (nonlinear_arith)
        requires
            0 <= a,
            0 <= inner,
            0 <= nb * nc,
            k == a * (nb * nc) + inner,
    ;
}

/// Every offset inside the storage belongs to exactly one element: its
/// coordinates are the quotients and remainders of the offset.
pub proof fn lemma_offset_join(k: int, na: int, nb: int, nc: int)
    requires
        0 <= k < na * nb * nc,
        0 < nb,
        0 < nc,
    ensures
        0 <= k / (nb * nc) < na,
        0 <= (k / nc) % nb < nb,
        0 <= k % nc < nc,
        offset3(k / (nb * nc), (k / nc) % nb, k % nc, nb, nc) == k,
{
    let c = k % nc;
    let row = k / nc;
    let b = row % nb;
    let a = row / nb;
    vstd::arithmetic::div_mod::lemma_fundamental_div_mod(k, nc);
    vstd::arithmetic::div_mod::lemma_mod_pos_bound(k, nc);
    assert(0 <= row) by (nonlinear_arith)
        requires
            k == nc * row + c,
            0 <= c < nc,
            0 <= k,
    ;
    vstd::arithmetic::div_mod::lemma_fundamental_div_mod(row, nb);
    vstd::arithmetic::div_mod::lemma_mod_pos_bound(row, nb);
    assert(0 <= a) by (nonlinear_arith)
        requires
            row == nb * a + b,
            0 <= b < nb,
            0 <= row,
    ;
    assert(k == (a * nb + b) * nc + c) by (nonlinear_arith)
        requires
            k == nc * row + c,
            row == nb * a + b,
    ;
    assert(a < na) by (nonlinear_arith)
        requires
            k == (a * nb + b) * nc + c,
            k < na * nb * nc,
            0 <= b,
            0 <= c,
            0 < nb,
            0 < nc,
            0 <= a,
    ;
    lemma_offset_split(a, b, c, nb, nc);
}

} // verus!
