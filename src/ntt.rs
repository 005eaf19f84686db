//! The additive NTT over GF(2^128) on the subspace spanned by `1, x, x^2, ...`
//! (as integers: `1, 2, 4, ...`), in "neighbors last" layer order.
//!
//! A vector of `2^d` scalars holds coefficients in the novel polynomial basis
//! built from the normalized subspace polynomials `Ŵ_i`; layer `l` of the
//! forward transform splits each of its `2^l` blocks in two halves with the
//! butterfly `u += t v; v += u`, where `t` is the block's twiddle. After all
//! layers, position `i` holds the evaluation at the domain point `i`.

use vstd::prelude::*;
use vstd::arithmetic::power2::{pow2, lemma_pow2_unfold, lemma_pow2_adds, lemma_pow2_pos};
use vstd::arithmetic::div_mod::lemma_fundamental_div_mod_converse;
use crate::field::{mul_spec, inv_spec, gf_mul, gf_inv};

verus! {

/// The largest supported domain dimension.
pub const MAX_LOG_DOMAIN: usize = 30;

/// The `j`-th basis element of the domain: `x^j`.
pub open spec fn basis(j: nat) -> u128 {
    1u128 << (j as u128)
}

/// The subspace polynomial `W_i` (vanishing on the span of the first `i`
/// basis elements), evaluated at `y`:
/// `W_0(y) = y`, `W_{i+1}(y) = W_i(y) * (W_i(y) + W_i(basis_i))`.
pub open spec fn sub_w(i: nat, y: u128) -> u128
    decreases i,
{
    if i == 0 {
        y
    } else {
        let prev = sub_w((i - 1) as nat, y);
        mul_spec(prev, prev ^ sub_w((i - 1) as nat, basis((i - 1) as nat)))
    }
}

/// The normalized subspace polynomial `Ŵ_i(y) = W_i(y) / W_i(basis_i)`.
pub open spec fn norm_w(i: nat, y: u128) -> u128 {
    mul_spec(sub_w(i, y), inv_spec(sub_w(i, basis(i))))
}

/// `Ŵ_i` at the sum of `basis_{i+1+m}` over the bits `m < upto` set in `b`,
/// by linearity of `Ŵ_i`.
pub open spec fn twiddle_upto(i: nat, b: usize, upto: nat) -> u128
    decreases upto,
{
    if upto == 0 {
        0
    } else {
        let prev = twiddle_upto(i, b, (upto - 1) as nat);
        if ((b as u64) >> ((upto - 1) as u64)) & 1 == 1 {
            prev ^ norm_w(i, basis(i + upto))
        } else {
            prev
        }
    }
}

/// The twiddle of block `b` in layer `l` of a transform over `2^d` points:
/// `Ŵ_{d-l-1}` at the offset of the block's coset.
pub open spec fn twiddle_spec(d: nat, l: nat, b: usize) -> u128 {
    twiddle_upto((d - l - 1) as nat, b, l)
}

/// Half the block size of layer `l` over `2^d` points.
pub open spec fn half(d: nat, l: nat) -> nat {
    pow2((d - l - 1) as nat)
}

/// One forward layer: in each block of size `2h`, the pair `(u, v)` at
/// offsets `o` and `o + h` becomes `(u + t v, u + t v + v)`.
pub open spec fn fwd_layer(s: Seq<u128>, d: nat, l: nat) -> Seq<u128> {
    let h = half(d, l) as int;
    Seq::new(
        s.len(),
        |i: int|
            {
                let t = twiddle_spec(d, l, (i / (2 * h)) as usize);
                if (i / h) % 2 == 0 {
                    s[i] ^ mul_spec(s[i + h], t)
                } else {
                    (s[i - h] ^ mul_spec(s[i], t)) ^ s[i]
                }
            },
    )
}

/// One inverse layer: the pair `(u, v)` becomes `(u + t (v + u), v + u)`.
pub open spec fn inv_layer(s: Seq<u128>, d: nat, l: nat) -> Seq<u128> {
    let h = half(d, l) as int;
    Seq::new(
        s.len(),
        |i: int|
            {
                let t = twiddle_spec(d, l, (i / (2 * h)) as usize);
                if (i / h) % 2 == 0 {
                    s[i] ^ mul_spec(s[i + h] ^ s[i], t)
                } else {
                    s[i] ^ s[i - h]
                }
            },
    )
}

/// The forward layers `lo, lo + 1, ..., hi - 1`, in that order.
pub open spec fn fwd_layers(s: Seq<u128>, d: nat, lo: nat, hi: nat) -> Seq<u128>
    decreases hi,
{
    if hi <= lo {
        s
    } else {
        fwd_layer(fwd_layers(s, d, lo, (hi - 1) as nat), d, (hi - 1) as nat)
    }
}

/// The inverse layers `hi - 1, ..., lo + 1, lo`, in that order.
pub open spec fn inv_layers(s: Seq<u128>, d: nat, lo: nat, hi: nat) -> Seq<u128>
    decreases hi,
{
    if hi <= lo {
        s
    } else {
        inv_layers(inv_layer(s, d, (hi - 1) as nat), d, lo, (hi - 1) as nat)
    }
}

/// `2^e` as a machine integer.
pub fn pow2_usize(e: usize) -> (r: usize)
    requires
        e <= 30,
    ensures
        r == pow2(e as nat),
{
    let mut r: usize = 1;
    let mut k: usize = 0;
    proof {
        vstd::arithmetic::power2::lemma2_to64();
    }
    while k < e
        invariant
            k <= e <= 30,
            r == pow2(k as nat),
            pow2(30) == 0x4000_0000,
        decreases e - k,
    {
        proof {
            if k < 30 {
                vstd::arithmetic::power2::lemma_pow2_strictly_increases(k as nat, 30);
            }
            lemma_pow2_unfold((k + 1) as nat);
        }
        r = r * 2;
        k = k + 1;
    }
    r
}

/// Where a position lies in its block: block `block`, offset `off` in the
/// lower half or `h + off` in the upper half.
proof fn lemma_block_pos(block: int, h: int, off: int)
    requires
        h > 0,
        0 <= block,
        0 <= off < h,
    ensures
        (block * (2 * h) + off) / (2 * h) == block,
        ((block * (2 * h) + off) / h) % 2 == 0,
        (block * (2 * h) + h + off) / (2 * h) == block,
        ((block * (2 * h) + h + off) / h) % 2 == 1,
{
    assert(block * (2 * h) == (2 * block) * h) by (nonlinear_arith);
    assert(block * (2 * h) + h == (2 * block + 1) * h) by (nonlinear_arith);
    lemma_fundamental_div_mod_converse(block * (2 * h) + off, 2 * h, block, off);
    lemma_fundamental_div_mod_converse(block * (2 * h) + h + off, 2 * h, block, h + off);
    lemma_fundamental_div_mod_converse(block * (2 * h) + off, h, 2 * block, off);
    lemma_fundamental_div_mod_converse(block * (2 * h) + h + off, h, 2 * block + 1, off);
    lemma_fundamental_div_mod_converse(2 * block, 2, block, 0);
    lemma_fundamental_div_mod_converse(2 * block + 1, 2, block, 1);
}

/// Every position of a vector of `nb` blocks of size `2h` has its partner
/// `h` away in the same block.
proof fn lemma_partner(i: int, h: int, nb: int)
    requires
        h > 0,
        0 <= i < nb * (2 * h),
    ensures
        (i / h) % 2 == 0 ==> {
            &&& i + h < nb * (2 * h)
            &&& (i + h) / (2 * h) == i / (2 * h)
            &&& ((i + h) / h) % 2 == 1
        },
        (i / h) % 2 != 0 ==> {
            &&& i - h >= 0
            &&& (i - h) / (2 * h) == i / (2 * h)
            &&& ((i - h) / h) % 2 == 0
        },
{
    let q = i / (2 * h);
    let r = i % (2 * h);
    vstd::arithmetic::div_mod::lemma_fundamental_div_mod(i, 2 * h);
    assert(0 <= r < 2 * h);
    assert(q >= 0) by (nonlinear_arith)
        requires
            i >= 0,
            h > 0,
            q == i / (2 * h),
    ;
    assert(q < nb) by (nonlinear_arith)
        requires
            i == (2 * h) * q + r,
            r >= 0,
            i < nb * (2 * h),
            h > 0,
    ;
    assert((q + 1) * (2 * h) <= nb * (2 * h)) by (nonlinear_arith)
        requires
            q < nb,
            h > 0,
    ;
    assert((q + 1) * (2 * h) == q * (2 * h) + 2 * h) by (nonlinear_arith);
    assert(i == q * (2 * h) + r) by (nonlinear_arith)
        requires
            i == (2 * h) * q + r,
    ;
    if r < h {
        lemma_block_pos(q, h, r);
    } else {
        lemma_block_pos(q, h, r - h);
    }
}

/// XOR undoes itself.
proof fn lemma_xor_cancel(a: u128, b: u128)
    ensures
        (a ^ b) ^ a == b,
        (a ^ b) ^ b == a,
{
    assert((a ^ b) ^ a == b) by (bit_vector);
    assert((a ^ b) ^ b == a) by (bit_vector);
}

/// The inverse layer undoes the forward layer, whatever the twiddles are.
pub proof fn lemma_layer_round_trip(s: Seq<u128>, d: nat, l: nat)
    requires
        l < d,
        s.len() == pow2(d),
    ensures
        inv_layer(fwd_layer(s, d, l), d, l) == s,
{
    let h = half(d, l) as int;
    let nb = pow2(l) as int;
    lemma_pow2_pos((d - l - 1) as nat);
    lemma_pow2_adds(l, (d - l) as nat);
    lemma_pow2_unfold((d - l) as nat);
    assert(s.len() == nb * (2 * h)) by (nonlinear_arith)
        requires
            s.len() == pow2(d),
            pow2(d) == pow2(l) * pow2((d - l) as nat),
            pow2((d - l) as nat) == 2 * pow2((d - l - 1) as nat),
            nb == pow2(l),
            h == pow2((d - l - 1) as nat),
    ;
    let f = fwd_layer(s, d, l);
    let g = inv_layer(f, d, l);
    assert forall|i: int| 0 <= i < s.len() implies g[i] == s[i] by {
        lemma_partner(i, h, nb);
        let t = twiddle_spec(d, l, (i / (2 * h)) as usize);
        if (i / h) % 2 == 0 {
            let u1 = s[i] ^ mul_spec(s[i + h], t);
            assert(f[i] == u1);
            assert(f[i + h] == u1 ^ s[i + h]);
            lemma_xor_cancel(u1, s[i + h]);
            lemma_xor_cancel(s[i], mul_spec(s[i + h], t));
        } else {
            let u1 = s[i - h] ^ mul_spec(s[i], t);
            assert(f[i] == u1 ^ s[i]);
            assert(f[i - h] == u1);
            lemma_xor_cancel(u1, s[i]);
        }
    }
    assert(g =~= s);
}

/// The inverse layers undo the forward layers over the same range.
pub proof fn lemma_layers_round_trip(s: Seq<u128>, d: nat, lo: nat, hi: nat)
    requires
        hi <= d,
        s.len() == pow2(d),
    ensures
        inv_layers(fwd_layers(s, d, lo, hi), d, lo, hi) == s,
    decreases hi,
{
    if hi > lo {
        let prev = fwd_layers(s, d, lo, (hi - 1) as nat);
        lemma_fwd_layers_len(s, d, lo, (hi - 1) as nat);
        lemma_layer_round_trip(prev, d, (hi - 1) as nat);
        lemma_layers_round_trip(s, d, lo, (hi - 1) as nat);
    }
}

/// The forward layers keep the length.
pub proof fn lemma_fwd_layers_len(s: Seq<u128>, d: nat, lo: nat, hi: nat)
    ensures
        fwd_layers(s, d, lo, hi).len() == s.len(),
    decreases hi,
{
    if hi > lo {
        lemma_fwd_layers_len(s, d, lo, (hi - 1) as nat);
    }
}

/// The inverse layers keep the length.
pub proof fn lemma_inv_layers_len(s: Seq<u128>, d: nat, lo: nat, hi: nat)
    ensures
        inv_layers(s, d, lo, hi).len() == s.len(),
    decreases hi,
{
    if hi > lo {
        lemma_inv_layers_len(inv_layer(s, d, (hi - 1) as nat), d, lo, (hi - 1) as nat);
    }
}

/// The twiddle table of the additive NTT over `2^log_domain` points.
pub struct AdditiveNtt {
    log_domain: usize,
    log_num_shares: usize,
    /// `basis_evals[i][j] = Ŵ_i(basis_j)`.
    basis_evals: Vec<Vec<u128>>,
}

impl AdditiveNtt {
    /// Dimension of the evaluation domain.
    pub closed spec fn log_domain_spec(&self) -> nat {
        self.log_domain as nat
    }

    /// The table holds `Ŵ_i(basis_j)` for all `i, j < log_domain`.
    pub closed spec fn wf(&self) -> bool {
        &&& self.log_domain <= MAX_LOG_DOMAIN
        &&& self.basis_evals@.len() == self.log_domain
        &&& forall|i: int|
            0 <= i < self.log_domain ==> #[trigger] self.basis_evals@[i]@.len() == self.log_domain
        &&& forall|i: int, j: int|
            0 <= i < self.log_domain && 0 <= j < self.log_domain ==> #[trigger] self.basis_evals@[i]@[j]
                == norm_w(i as nat, basis(j as nat))
    }

    /// Dimension of the evaluation domain.
    pub fn log_domain(&self) -> (r: usize)
        ensures
            r == self.log_domain_spec(),
            self.wf() ==> r <= MAX_LOG_DOMAIN,
    {
        self.log_domain
    }

    /// Logarithm of the number of shares the work is split into.
    pub closed spec fn log_num_shares_spec(&self) -> nat {
        self.log_num_shares as nat
    }

    /// Logarithm of the number of shares the work is split into.
    pub fn log_num_shares(&self) -> (r: usize)
        ensures
            r == self.log_num_shares_spec(),
    {
        self.log_num_shares
    }

    /// Build the twiddle table for the domain of dimension `log_domain`.
    pub fn new(log_domain: usize, log_num_shares: usize) -> (r: AdditiveNtt)
        requires
            log_domain <= MAX_LOG_DOMAIN,
        ensures
            r.wf(),
            r.log_domain_spec() == log_domain,
            r.log_num_shares_spec() == log_num_shares,
    {
        let d = log_domain;
        let mut w: Vec<u128> = Vec::new();
        let mut j: usize = 0;
        while j < d
            invariant
                j <= d <= MAX_LOG_DOMAIN,
                w@.len() == j,
                forall|t: int| 0 <= t < j ==> w@[t] == sub_w(0, basis(t as nat)),
            decreases d - j,
        {
            w.push(1u128 << (j as u128));
            j = j + 1;
        }
        let mut rows: Vec<Vec<u128>> = Vec::new();
        let mut i: usize = 0;
        while i < d
            invariant
                i <= d <= MAX_LOG_DOMAIN,
                w@.len() == d,
                forall|t: int| 0 <= t < d ==> w@[t] == sub_w(i as nat, basis(t as nat)),
                rows@.len() == i,
                forall|a: int| 0 <= a < i ==> #[trigger] rows@[a]@.len() == d,
                forall|a: int, b: int|
                    0 <= a < i && 0 <= b < d ==> #[trigger] rows@[a]@[b] == norm_w(
                        a as nat,
                        basis(b as nat),
                    ),
            decreases d - i,
        {
            let wi = w[i];
            let inv_wi = gf_inv(wi);
            let mut row: Vec<u128> = Vec::new();
            let mut t: usize = 0;
            while t < d
                invariant
                    t <= d,
                    w@.len() == d,
                    i < d,
                    wi == sub_w(i as nat, basis(i as nat)),
                    inv_wi == inv_spec(wi),
                    forall|u: int| 0 <= u < d ==> w@[u] == sub_w(i as nat, basis(u as nat)),
                    row@.len() == t,
                    forall|b: int| 0 <= b < t ==> row@[b] == norm_w(i as nat, basis(b as nat)),
                decreases d - t,
            {
                row.push(gf_mul(w[t], inv_wi));
                t = t + 1;
            }
            rows.push(row);
            let mut t: usize = 0;
            while t < d
                invariant
                    t <= d,
                    w@.len() == d,
                    i < d,
                    wi == sub_w(i as nat, basis(i as nat)),
                    forall|u: int| t <= u < d ==> w@[u] == sub_w(i as nat, basis(u as nat)),
                    forall|u: int| 0 <= u < t ==> w@[u] == sub_w((i + 1) as nat, basis(u as nat)),
                decreases d - t,
            {
                let wt = w[t];
                w.set(t, gf_mul(wt, wt ^ wi));
                t = t + 1;
            }
            i = i + 1;
        }
        AdditiveNtt { log_domain: d, log_num_shares, basis_evals: rows }
    }

    /// The twiddle of block `block` in layer `layer`.
    pub fn twiddle(&self, layer: usize, block: usize) -> (r: u128)
        requires
            self.wf(),
            layer < self.log_domain_spec(),
        ensures
            r == twiddle_spec(self.log_domain_spec(), layer as nat, block),
    {
        let i: usize = self.log_domain - layer - 1;
        let mut acc: u128 = 0;
        let mut m: usize = 0;
        while m < layer
            invariant
                self.wf(),
                layer < self.log_domain,
                i == self.log_domain - layer - 1,
                m <= layer,
                acc == twiddle_upto(i as nat, block, m as nat),
            decreases layer - m,
        {
            if ((block as u64) >> (m as u64)) & 1 == 1 {
                acc = acc ^ self.basis_evals[i][i + 1 + m];
            }
            m = m + 1;
        }
        acc
    }

    /// Apply layer `layer` of the transform, forward or inverse, in place.
    pub fn butterfly_layer(&self, data: &mut Vec<u128>, layer: usize, inverse: bool)
        requires
            self.wf(),
            layer < self.log_domain_spec(),
            old(data)@.len() == pow2(self.log_domain_spec()),
        ensures
            final(data)@ == (if inverse {
                inv_layer(old(data)@, self.log_domain_spec(), layer as nat)
            } else {
                fwd_layer(old(data)@, self.log_domain_spec(), layer as nat)
            }),
    {
        let ghost s0 = data@;
        let ghost dd = self.log_domain as nat;
        let ghost target = if inverse {
            inv_layer(s0, dd, layer as nat)
        } else {
            fwd_layer(s0, dd, layer as nat)
        };
        let d = self.log_domain;
        let h: usize = pow2_usize(d - layer - 1);
        let num_blocks: usize = pow2_usize(layer);
        proof {
            lemma_pow2_pos((dd - layer - 1) as nat);
            lemma_pow2_adds(layer as nat, (dd - layer) as nat);
            lemma_pow2_unfold((dd - layer) as nat);
            assert(s0.len() == num_blocks * (2 * h)) by (nonlinear_arith)
                requires
                    s0.len() == pow2(dd),
                    pow2(dd) == pow2(layer as nat) * pow2((dd - layer) as nat),
                    pow2((dd - layer) as nat) == 2 * pow2((dd - layer - 1) as nat),
                    num_blocks == pow2(layer as nat),
                    h == pow2((dd - layer - 1) as nat),
            ;
        }
        let ghost n = s0.len() as int;
        proof {
            vstd::arithmetic::power2::lemma2_to64();
            if dd < 30 {
                vstd::arithmetic::power2::lemma_pow2_strictly_increases(dd, 30);
            }
        }
        let mut block: usize = 0;
        while block < num_blocks
            invariant
                self.wf(),
                d == self.log_domain,
                dd == d,
                layer < d,
                h == half(dd, layer as nat),
                h > 0,
                n == s0.len(),
                n == num_blocks * (2 * h),
                n <= 0x4000_0000,
                block <= num_blocks,
                target == (if inverse {
                    inv_layer(s0, dd, layer as nat)
                } else {
                    fwd_layer(s0, dd, layer as nat)
                }),
                data@.len() == n,
                forall|i: int|
                    0 <= i < n ==> #[trigger] data@[i] == (if i < block * (2 * h) {
                        target[i]
                    } else {
                        s0[i]
                    }),
            decreases num_blocks - block,
        {
            let t = self.twiddle(layer, block);
            proof {
                assert((block + 1) * (2 * h) <= num_blocks * (2 * h)) by (nonlinear_arith)
                    requires
                        block < num_blocks,
                        h > 0,
                ;
                assert((block + 1) * (2 * h) == block * (2 * h) + 2 * h) by (nonlinear_arith);
            }
            let start: usize = block * (2 * h);
            let mut off: usize = 0;
            while off < h
                invariant
                    self.wf(),
                    dd == self.log_domain,
                    layer < dd,
                    h == half(dd, layer as nat),
                    h > 0,
                    n == s0.len(),
                    block < num_blocks,
                    start == block * (2 * h),
                    start + 2 * h <= n,
                    n <= 0x4000_0000,
                    t == twiddle_spec(dd, layer as nat, block),
                    off <= h,
                    target == (if inverse {
                        inv_layer(s0, dd, layer as nat)
                    } else {
                        fwd_layer(s0, dd, layer as nat)
                    }),
                    data@.len() == n,
                    forall|i: int|
                        0 <= i < n ==> #[trigger] data@[i] == (if i < start || (start <= i < start
                            + off) || (start + h <= i < start + h + off) {
                            target[i]
                        } else {
                            s0[i]
                        }),
                decreases h - off,
            {
                let idx0: usize = start + off;
                let idx1: usize = idx0 + h;
                let u = data[idx0];
                let v = data[idx1];
                proof {
                    lemma_block_pos(block as int, h as int, off as int);
                }
                if inverse {
                    let v2 = v ^ u;
                    let u2 = u ^ gf_mul(v2, t);
                    data.set(idx0, u2);
                    data.set(idx1, v2);
                } else {
                    let u2 = u ^ gf_mul(v, t);
                    let v2 = u2 ^ v;
                    data.set(idx0, u2);
                    data.set(idx1, v2);
                }
                off = off + 1;
            }
            block = block + 1;
        }
        assert(data@ =~= target);
    }

    /// Apply the forward layers `skip_early .. log_domain - skip_late`.
    pub fn forward_transform(&self, data: &mut Vec<u128>, skip_early: usize, skip_late: usize)
        requires
            self.wf(),
            skip_early + skip_late <= self.log_domain_spec(),
            old(data)@.len() == pow2(self.log_domain_spec()),
        ensures
            final(data)@ == fwd_layers(
                old(data)@,
                self.log_domain_spec(),
                skip_early as nat,
                (self.log_domain_spec() - skip_late) as nat,
            ),
    {
        let ghost s0 = data@;
        let hi: usize = self.log_domain - skip_late;
        let mut layer: usize = skip_early;
        while layer < hi
            invariant
                self.wf(),
                hi == self.log_domain_spec() - skip_late,
                skip_early <= layer,
                layer <= hi || layer == skip_early,
                data@ == fwd_layers(s0, self.log_domain_spec(), skip_early as nat, layer as nat),
                data@.len() == s0.len(),
                s0.len() == pow2(self.log_domain_spec()),
            decreases hi - layer,
        {
            self.butterfly_layer(data, layer, false);
            layer = layer + 1;
        }
    }

    /// Apply the inverse layers `log_domain - skip_late - 1` down to `skip_early`.
    pub fn inverse_transform(&self, data: &mut Vec<u128>, skip_early: usize, skip_late: usize)
        requires
            self.wf(),
            skip_early + skip_late <= self.log_domain_spec(),
            old(data)@.len() == pow2(self.log_domain_spec()),
        ensures
            final(data)@ == inv_layers(
                old(data)@,
                self.log_domain_spec(),
                skip_early as nat,
                (self.log_domain_spec() - skip_late) as nat,
            ),
    {
        let ghost s0 = data@;
        let ghost dd = self.log_domain_spec();
        let hi: usize = self.log_domain - skip_late;
        let mut layer: usize = hi;
        while layer > skip_early
            invariant
                self.wf(),
                dd == self.log_domain_spec(),
                hi == dd - skip_late,
                skip_early <= layer <= hi,
                inv_layers(data@, dd, skip_early as nat, layer as nat) == inv_layers(
                    s0,
                    dd,
                    skip_early as nat,
                    hi as nat,
                ),
                data@.len() == s0.len(),
                s0.len() == pow2(dd),
            decreases layer,
        {
            self.butterfly_layer(data, layer - 1, true);
            layer = layer - 1;
        }
    }
}

} // verus!
