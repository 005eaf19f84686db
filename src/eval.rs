//! Evaluation of a multilinear extension at a point: the inner product of its
//! hypercube values with the equality indicator `eq(r, .)`.

use vstd::prelude::*;
use vstd::arithmetic::power2::{pow2, lemma_pow2_unfold, lemma_pow2_pos};
use crate::field::{mul_spec, add_spec, gf_mul, ONE};

verus! {

/// `eq(r, x)` for the hypercube point `x` whose bits are those of `j`, over
/// the first `k` coordinates: the product, variable by variable, of `r_i`
/// where `x_i = 1` and of `1 + r_i` where `x_i = 0`.
pub open spec fn eq_weight(r: Seq<u128>, k: nat, j: int) -> u128
    decreases k,
{
    if k == 0 {
        1
    } else {
        let h = pow2((k - 1) as nat) as int;
        if j < h {
            mul_spec(eq_weight(r, (k - 1) as nat, j), add_spec(1, r[k - 1]))
        } else {
            mul_spec(eq_weight(r, (k - 1) as nat, j - h), r[k - 1])
        }
    }
}

/// The table of `eq(r, x)` over the hypercube of dimension `k`.
pub open spec fn eq_table(r: Seq<u128>, k: nat) -> Seq<u128> {
    Seq::new(pow2(k), |j: int| eq_weight(r, k, j))
}

/// `sum over i < n of a_i * b_i`.
pub open spec fn inner_upto(a: Seq<u128>, b: Seq<u128>, n: nat) -> u128
    decreases n,
{
    if n == 0 {
        0
    } else {
        add_spec(inner_upto(a, b, (n - 1) as nat), mul_spec(a[n - 1], b[n - 1]))
    }
}

/// The value at `r` of the multilinear extension with hypercube values `v`:
/// `<v, eq(r, .)>`.
pub open spec fn mle_eval(v: Seq<u128>, r: Seq<u128>) -> u128 {
    inner_upto(v, eq_table(r, r.len()), v.len())
}

/// The table of `eq(r, .)` over the hypercube of dimension `r.len()`.
pub fn eq_ind_partial_eval(r: &[u128]) -> (w: Vec<u128>)
    requires
        r@.len() <= 30,
    ensures
        w@ == eq_table(r@, r@.len()),
{
    let mut w: Vec<u128> = Vec::new();
    w.push(ONE);
    proof {
        lemma_pow2_pos(0);
        vstd::arithmetic::power2::lemma2_to64();
        assert(w@ =~= eq_table(r@, 0));
    }
    let mut k: usize = 0;
    while k < r.len()
        invariant
            k <= r@.len() <= 30,
            w@ == eq_table(r@, k as nat),
            w@.len() == pow2(k as nat),
            pow2(30) == 0x4000_0000,
        decreases r@.len() - k,
    {
        let h: usize = w.len();
        proof {
            if k < 30 {
                vstd::arithmetic::power2::lemma_pow2_strictly_increases(k as nat, 30);
            }
            lemma_pow2_unfold((k + 1) as nat);
        }
        let lo_factor: u128 = ONE ^ r[k];
        let mut next: Vec<u128> = Vec::new();
        let mut j: usize = 0;
        while j < 2 * h
            invariant
                h == w@.len(),
                h == pow2(k as nat),
                h <= 0x4000_0000,
                k < r@.len(),
                lo_factor == add_spec(1, r@[k as int]),
                w@ == eq_table(r@, k as nat),
                pow2((k + 1) as nat) == 2 * pow2(k as nat),
                j <= 2 * h,
                next@.len() == j,
                forall|t: int| 0 <= t < j ==> next@[t] == eq_weight(r@, (k + 1) as nat, t),
            decreases 2 * h - j,
        {
            let x: u128 = if j < h {
                gf_mul(w[j], lo_factor)
            } else {
                gf_mul(w[j - h], r[k])
            };
            next.push(x);
            j = j + 1;
        }
        assert(next@ =~= eq_table(r@, (k + 1) as nat));
        w = next;
        k = k + 1;
    }
    w
}

/// `sum over i of a_i * b_i`, over two vectors of the same length.
pub fn inner_product(a: &[u128], b: &Vec<u128>) -> (r: u128)
    requires
        a@.len() == b@.len(),
    ensures
        r == inner_upto(a@, b@, a@.len()),
{
    let mut acc: u128 = 0;
    let mut i: usize = 0;
    while i < a.len()
        invariant
            a@.len() == b@.len(),
            i <= a@.len(),
            acc == inner_upto(a@, b@, i as nat),
        decreases a@.len() - i,
    {
        acc = acc ^ gf_mul(a[i], b[i]);
        i = i + 1;
    }
    acc
}

} // verus!
