//! Lagrange interpolation over GF(2^128) on the domain `x_i = i`.

use vstd::prelude::*;
use crate::field::{add_spec, mul_spec, inv_spec, gf_mul, gf_inv, ONE, ZERO};

verus! {

/// Whether `i` is listed in `idx`.
pub open spec fn listed(idx: Seq<usize>, i: int) -> bool {
    exists|t: int| 0 <= t < idx.len() && idx[t] as int == i
}

/// The known points `(x_i, c_i)` among the first `m` positions of `c`, that
/// is those not listed in `erased`, in increasing order of position.
pub open spec fn known_upto(c: Seq<u128>, erased: Seq<usize>, m: nat) -> Seq<(u128, u128)>
    decreases m,
{
    if m == 0 {
        Seq::empty()
    } else {
        let prev = known_upto(c, erased, (m - 1) as nat);
        if listed(erased, m - 1) {
            prev
        } else {
            prev.push((((m - 1) as int) as u128, c[m - 1]))
        }
    }
}

/// The known points of the whole codeword `c`.
pub open spec fn known_points(c: Seq<u128>, erased: Seq<usize>) -> Seq<(u128, u128)> {
    known_upto(c, erased, c.len())
}

/// `prod over m < j of (x + x_m)`, folded from the left.
pub open spec fn prefix_prod(known: Seq<(u128, u128)>, x: u128, j: nat) -> u128
    decreases j,
{
    if j == 0 {
        1
    } else {
        mul_spec(prefix_prod(known, x, (j - 1) as nat), add_spec(x, known[j - 1].0))
    }
}

/// `prod over m >= j of (x + x_m)`, folded from the right.
pub open spec fn suffix_prod(known: Seq<(u128, u128)>, x: u128, j: nat) -> u128
    decreases known.len() - j,
{
    if j >= known.len() {
        1
    } else {
        mul_spec(add_spec(x, known[j as int].0), suffix_prod(known, x, j + 1))
    }
}

/// `prod over m != j of (x - x_m)` (subtraction is addition here).
pub open spec fn numerator(known: Seq<(u128, u128)>, x: u128, j: int) -> u128 {
    mul_spec(prefix_prod(known, x, j as nat), suffix_prod(known, x, (j + 1) as nat))
}

/// The barycentric weight of the `j`-th known point:
/// the inverse of `prod over m != j of (x_j - x_m)`.
pub open spec fn bary_weight(known: Seq<(u128, u128)>, j: int) -> u128 {
    inv_spec(numerator(known, known[j].0, j))
}

/// The `j`-th Lagrange basis polynomial of the known points, evaluated at `x`:
/// `prod over m != j of (x - x_m) / (x_j - x_m)`.
pub open spec fn lagrange_basis(known: Seq<(u128, u128)>, x: u128, j: int) -> u128 {
    mul_spec(numerator(known, x, j), bary_weight(known, j))
}

/// `sum over j < upto of y_j * L_j(x)`.
pub open spec fn interp_upto(known: Seq<(u128, u128)>, x: u128, upto: nat) -> u128
    decreases upto,
{
    if upto == 0 {
        0
    } else {
        add_spec(
            interp_upto(known, x, (upto - 1) as nat),
            mul_spec(known[upto - 1].1, lagrange_basis(known, x, upto - 1)),
        )
    }
}

/// The value at `x` of the interpolating polynomial of the known points.
pub open spec fn interpolate(known: Seq<(u128, u128)>, x: u128) -> u128 {
    interp_upto(known, x, known.len())
}

/// The codeword after every erased position of `c` was replaced by the value
/// interpolated from the positions that were not erased.
pub open spec fn reconstructed(c: Seq<u128>, erased: Seq<usize>) -> Seq<u128> {
    Seq::new(
        c.len(),
        |i: int|
            if listed(erased, i) {
                interpolate(known_points(c, erased), i as u128)
            } else {
                c[i]
            },
    )
}

/// Whether `i` is listed in `idx`.
pub fn is_listed(idx: &[usize], i: usize) -> (r: bool)
    ensures
        r == listed(idx@, i as int),
{
    let mut t: usize = 0;
    while t < idx.len()
        invariant
            t <= idx@.len(),
            forall|u: int| 0 <= u < t ==> idx@[u] != i,
        decreases idx@.len() - t,
    {
        if idx[t] == i {
            return true;
        }
        t = t + 1;
    }
    false
}

/// The known points of `c`: each position not listed in `erased`, with its value.
pub fn collect_known(c: &Vec<u128>, erased: &[usize]) -> (r: Vec<(u128, u128)>)
    ensures
        r@ == known_points(c@, erased@),
{
    let mut known: Vec<(u128, u128)> = Vec::new();
    let mut i: usize = 0;
    while i < c.len()
        invariant
            i <= c@.len(),
            known@ == known_upto(c@, erased@, i as nat),
        decreases c@.len() - i,
    {
        if !is_listed(erased, i) {
            known.push((i as u128, c[i]));
        }
        i = i + 1;
    }
    known
}

/// `prod over m != j of (x + x_m)` for every `j`, from prefix and suffix products.
fn numerators(known: &Vec<(u128, u128)>, x: u128) -> (r: Vec<u128>)
    ensures
        r@.len() == known@.len(),
        forall|j: int| 0 <= j < known@.len() ==> r@[j] == numerator(known@, x, j),
{
    let k = known.len();
    let mut pre: Vec<u128> = Vec::new();
    pre.push(ONE);
    let mut acc: u128 = ONE;
    let mut j: usize = 0;
    while j < k
        invariant
            k == known@.len(),
            j <= k,
            acc == prefix_prod(known@, x, j as nat),
            pre@.len() == j + 1,
            forall|t: int| 0 <= t <= j ==> pre@[t] == prefix_prod(known@, x, t as nat),
        decreases k - j,
    {
        acc = gf_mul(acc, x ^ known[j].0);
        pre.push(acc);
        j = j + 1;
    }
    let mut suf: Vec<u128> = Vec::new();
    let mut t: usize = 0;
    while t < k
        invariant
            k == known@.len(),
            t <= k,
            suf@.len() == t,
        decreases k - t,
    {
        suf.push(ONE);
        t = t + 1;
    }
    suf.push(ONE);
    assert(suf@[k as int] == suffix_prod(known@, x, k as nat));
    let mut j: usize = k;
    while j > 0
        invariant
            k == known@.len(),
            j <= k,
            suf@.len() == k + 1,
            forall|t: int| j <= t <= k ==> suf@[t] == suffix_prod(known@, x, t as nat),
        decreases j,
    {
        let v = gf_mul(x ^ known[j - 1].0, suf[j]);
        suf.set(j - 1, v);
        j = j - 1;
    }
    let mut out: Vec<u128> = Vec::new();
    let mut j: usize = 0;
    while j < k
        invariant
            k == known@.len(),
            j <= k,
            pre@.len() == k + 1,
            suf@.len() == k + 1,
            forall|t: int| 0 <= t <= k ==> pre@[t] == prefix_prod(known@, x, t as nat),
            forall|t: int| 0 <= t <= k ==> suf@[t] == suffix_prod(known@, x, t as nat),
            out@.len() == j,
            forall|t: int| 0 <= t < j ==> out@[t] == numerator(known@, x, t),
        decreases k - j,
    {
        out.push(gf_mul(pre[j], suf[j + 1]));
        j = j + 1;
    }
    out
}

/// The barycentric weight of every known point.
pub fn barycentric_weights(known: &Vec<(u128, u128)>) -> (r: Vec<u128>)
    ensures
        r@.len() == known@.len(),
        forall|j: int| 0 <= j < known@.len() ==> r@[j] == bary_weight(known@, j),
{
    let mut w: Vec<u128> = Vec::new();
    let mut j: usize = 0;
    while j < known.len()
        invariant
            j <= known@.len(),
            w@.len() == j,
            forall|t: int| 0 <= t < j ==> w@[t] == bary_weight(known@, t),
        decreases known@.len() - j,
    {
        let nums = numerators(known, known[j].0);
        w.push(gf_inv(nums[j]));
        j = j + 1;
    }
    w
}

/// Evaluate at `x` the polynomial through the known points, by Lagrange's
/// formula with the points' barycentric weights.
pub fn interpolate_at_point(x: u128, known: &Vec<(u128, u128)>, weights: &Vec<u128>) -> (r: u128)
    requires
        weights@.len() == known@.len(),
        forall|j: int| 0 <= j < known@.len() ==> weights@[j] == bary_weight(known@, j),
    ensures
        r == interpolate(known@, x),
{
    let nums = numerators(known, x);
    let mut value: u128 = ZERO;
    let mut j: usize = 0;
    while j < known.len()
        invariant
            j <= known@.len(),
            nums@.len() == known@.len(),
            weights@.len() == known@.len(),
            forall|t: int| 0 <= t < known@.len() ==> nums@[t] == numerator(known@, x, t),
            forall|t: int| 0 <= t < known@.len() ==> weights@[t] == bary_weight(known@, t),
            value == interp_upto(known@, x, j as nat),
        decreases known@.len() - j,
    {
        let l_j = gf_mul(nums[j], weights[j]);
        value = value ^ gf_mul(known[j].1, l_j);
        j = j + 1;
    }
    value
}

} // verus!
