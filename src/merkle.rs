//! A binary Merkle tree over a codeword, hashed with SHA-256: leaf `i` is the
//! digest of the 16 little-endian bytes of position `i`, and each inner node
//! the digest of its two children's digests, left then right.

use vstd::prelude::*;
use vstd::arithmetic::power2::{pow2, lemma_pow2_unfold, lemma_pow2_pos};
use crate::ntt::MAX_LOG_DOMAIN;

verus! {

/// The SHA-256 digest of `data`.
pub uninterp spec fn sha256_of(data: Seq<u8>) -> Seq<u8>;

/// Relies on sha2's `Sha256::digest`: the SHA-256 digest of the bytes, a
/// function of the bytes alone.
#[verifier::external_body]
fn sha256(data: &[u8]) -> (r: [u8; 32])
    ensures
        r@ == sha256_of(data@),
{
    <sha2::Sha256 as sha2::Digest>::digest(data).into()
}

/// The 16 little-endian bytes of a scalar.
pub open spec fn le_bytes(v: u128) -> Seq<u8> {
    Seq::new(16, |k: int| ((v >> ((8 * k) as u128)) & 0xff) as u8)
}

/// The digest of a leaf holding `v`.
pub open spec fn leaf_hash(v: u128) -> Seq<u8> {
    sha256_of(le_bytes(v))
}

/// The digest of an inner node with children `l` and `r`.
pub open spec fn node_hash(l: Seq<u8>, r: Seq<u8>) -> Seq<u8> {
    sha256_of(l + r)
}

/// The digests of level `l` of the tree over `c` (level 0 holds the leaves).
pub open spec fn merkle_level(c: Seq<u128>, l: nat) -> Seq<Seq<u8>>
    decreases l,
{
    if l == 0 {
        Seq::new(c.len(), |i: int| leaf_hash(c[i]))
    } else {
        let prev = merkle_level(c, (l - 1) as nat);
        Seq::new(prev.len() / 2, |p: int| node_hash(prev[2 * p], prev[2 * p + 1]))
    }
}

/// The root of the tree of depth `d` over `c`.
pub open spec fn merkle_root(c: Seq<u128>, d: nat) -> Seq<u8> {
    merkle_level(c, d)[0]
}

/// The other child of the parent of node `j`.
pub open spec fn sibling(j: int) -> int {
    if j % 2 == 0 {
        j + 1
    } else {
        j - 1
    }
}

/// The authentication path of leaf `i` in the tree of depth `d` over `c`:
/// the sibling of its ancestor on each level, from the leaves up.
pub open spec fn auth_path(c: Seq<u128>, d: nat, i: int) -> Seq<Seq<u8>> {
    Seq::new(d, |l: int| merkle_level(c, l as nat)[sibling(i / pow2(l as nat) as int)])
}

/// The digest reached from `h` at leaf `i` after the first `l` path steps.
pub open spec fn fold_path(h: Seq<u8>, i: int, path: Seq<Seq<u8>>, l: nat) -> Seq<u8>
    decreases l,
{
    if l == 0 {
        h
    } else {
        let prev = fold_path(h, i, path, (l - 1) as nat);
        if (i / pow2((l - 1) as nat) as int) % 2 == 0 {
            node_hash(prev, path[l - 1])
        } else {
            node_hash(path[l - 1], prev)
        }
    }
}

/// The root that `path` leads to from value `v` at leaf `i`.
pub open spec fn path_root(v: u128, i: int, path: Seq<Seq<u8>>) -> Seq<u8> {
    fold_path(leaf_hash(v), i, path, path.len())
}

/// The digests of a slice of digests, as byte sequences.
pub open spec fn digests_view(p: Seq<[u8; 32]>) -> Seq<Seq<u8>> {
    Seq::new(p.len(), |l: int| p[l]@)
}

proof fn lemma_quotient_bound(i: int, p: int, m: int)
    requires
        p > 0,
        0 <= i < p * m,
    ensures
        i / p < m,
{
    vstd::arithmetic::div_mod::lemma_fundamental_div_mod(i, p);
    let q = i / p;
    let r = i % p;
    assert(q < m) by (nonlinear_arith)
        requires
            i == p * q + r,
            r >= 0,
            i < p * m,
            p > 0,
    ;
}

proof fn lemma_level_len(c: Seq<u128>, d: nat, l: nat)
    requires
        c.len() == pow2(d),
        l <= d,
    ensures
        merkle_level(c, l).len() == pow2((d - l) as nat),
    decreases l,
{
    if l > 0 {
        lemma_level_len(c, d, (l - 1) as nat);
        lemma_pow2_unfold((d - l + 1) as nat);
    }
}

proof fn lemma_fold_is_ancestor(c: Seq<u128>, d: nat, i: int, l: nat)
    requires
        c.len() == pow2(d),
        0 <= i < pow2(d),
        l <= d,
    ensures
        fold_path(leaf_hash(c[i]), i, auth_path(c, d, i), l) == merkle_level(c, l)[i / pow2(
            l,
        ) as int],
        0 <= i / pow2(l) as int,
        (i / pow2(l) as int) < pow2((d - l) as nat),
    decreases l,
{
    lemma_pow2_pos(l);
    lemma_level_len(c, d, l);
    vstd::arithmetic::power2::lemma_pow2_adds(l, (d - l) as nat);
    vstd::arithmetic::div_mod::lemma_div_pos_is_pos(i, pow2(l) as int);
    assert((i / pow2(l) as int) < pow2((d - l) as nat)) by {
        lemma_quotient_bound(i, pow2(l) as int, pow2((d - l) as nat) as int);
    }
    if l == 0 {
        assert(pow2(0) == 1) by {
            vstd::arithmetic::power2::lemma2_to64();
        }
    } else {
        let lp = (l - 1) as nat;
        lemma_fold_is_ancestor(c, d, i, lp);
        lemma_level_len(c, d, lp);
        lemma_pow2_unfold(l);
        lemma_pow2_pos(lp);
        let j = i / pow2(lp) as int;
        vstd::arithmetic::div_mod::lemma_div_denominator(i, pow2(lp) as int, 2);
        assert(pow2(lp) * 2 == pow2(l));
        assert(i / pow2(l) as int == j / 2);
        let prev = merkle_level(c, lp);
        if j % 2 == 0 {
            assert(2 * (j / 2) == j);
        } else {
            assert(2 * (j / 2) + 1 == j);
        }
    }
}

/// An authentication path produced for leaf `i` of the tree over `c` leads
/// from `c[i]` back to the tree's root.
pub proof fn lemma_inclusion_proof_complete(c: Seq<u128>, d: nat, i: int)
    requires
        c.len() == pow2(d),
        0 <= i < c.len(),
    ensures
        path_root(c[i], i, auth_path(c, d, i)) == merkle_root(c, d),
{
    lemma_fold_is_ancestor(c, d, i, d);
    lemma_pow2_pos(d);
    lemma_quotient_bound(i, pow2(d) as int, 1);
    vstd::arithmetic::div_mod::lemma_div_pos_is_pos(i, pow2(d) as int);
    assert(pow2(0) == 1) by {
        vstd::arithmetic::power2::lemma2_to64();
    }
}

/// The 16 little-endian bytes of a scalar.
pub fn scalar_le_bytes(v: u128) -> (r: Vec<u8>)
    ensures
        r@ == le_bytes(v),
{
    let mut out: Vec<u8> = Vec::new();
    let mut k: u32 = 0;
    while k < 16
        invariant
            k <= 16,
            out@.len() == k,
            forall|t: int| 0 <= t < k ==> out@[t] == ((v >> ((8 * t) as u128)) & 0xff) as u8,
        decreases 16 - k,
    {
        out.push(((v >> ((8 * k) as u128)) & 0xff) as u8);
        k = k + 1;
    }
    assert(out@ =~= le_bytes(v));
    out
}

/// The digest of a leaf holding `v`.
fn hash_leaf(v: u128) -> (r: [u8; 32])
    ensures
        r@ == leaf_hash(v),
{
    let bytes = scalar_le_bytes(v);
    sha256(bytes.as_slice())
}

/// The digest of an inner node with children `a` and `b`.
fn hash_node(a: &[u8; 32], b: &[u8; 32]) -> (r: [u8; 32])
    ensures
        r@ == node_hash(a@, b@),
{
    let mut bytes: Vec<u8> = Vec::new();
    let mut k: usize = 0;
    while k < 32
        invariant
            k <= 32,
            bytes@ == a@.subrange(0, k as int),
        decreases 32 - k,
    {
        bytes.push(a[k]);
        k = k + 1;
    }
    let mut k: usize = 0;
    while k < 32
        invariant
            k <= 32,
            bytes@ == a@ + b@.subrange(0, k as int),
        decreases 32 - k,
    {
        bytes.push(b[k]);
        k = k + 1;
    }
    assert(bytes@ =~= a@ + b@);
    sha256(bytes.as_slice())
}

/// Whether two digests are equal.
pub fn digests_equal(a: &[u8; 32], b: &[u8; 32]) -> (r: bool)
    ensures
        r == (a@ == b@),
{
    let mut k: usize = 0;
    while k < 32
        invariant
            k <= 32,
            forall|t: int| 0 <= t < k ==> a@[t] == b@[t],
        decreases 32 - k,
    {
        if a[k] != b[k] {
            return false;
        }
        k = k + 1;
    }
    assert(a@ =~= b@);
    true
}

/// A Merkle tree over a codeword of `2^depth` positions, with every level.
pub struct MerkleTree {
    depth: usize,
    /// `levels[l][i]` is node `i` of level `l`; level 0 holds the leaves.
    levels: Vec<Vec<[u8; 32]>>,
    codeword: Ghost<Seq<u128>>,
}

impl MerkleTree {
    /// The codeword the tree was built over.
    pub closed spec fn codeword_spec(&self) -> Seq<u128> {
        self.codeword@
    }

    /// The tree's depth: the logarithm of its number of leaves.
    pub closed spec fn depth_spec(&self) -> nat {
        self.depth as nat
    }

    /// Every level holds the digests that the codeword determines.
    pub closed spec fn wf(&self) -> bool {
        &&& self.depth <= MAX_LOG_DOMAIN
        &&& self.codeword@.len() == pow2(self.depth as nat)
        &&& self.levels@.len() == self.depth + 1
        &&& forall|l: int|
            0 <= l <= self.depth ==> #[trigger] self.levels@[l]@.len() == merkle_level(
                self.codeword@,
                l as nat,
            ).len()
        &&& forall|l: int, i: int|
            0 <= l <= self.depth && 0 <= i < merkle_level(self.codeword@, l as nat).len()
                ==> #[trigger] self.levels@[l]@[i]@ == merkle_level(self.codeword@, l as nat)[i]
    }

    /// Build the tree over a codeword of `2^depth` positions.
    pub fn build(c: &Vec<u128>, depth: usize) -> (r: MerkleTree)
        requires
            depth <= MAX_LOG_DOMAIN,
            c@.len() == pow2(depth as nat),
        ensures
            r.wf(),
            r.codeword_spec() == c@,
            r.depth_spec() == depth,
    {
        let ghost cw = c@;
        let mut leaves: Vec<[u8; 32]> = Vec::new();
        let mut i: usize = 0;
        while i < c.len()
            invariant
                cw == c@,
                i <= c@.len(),
                leaves@.len() == i,
                forall|t: int| 0 <= t < i ==> #[trigger] leaves@[t]@ == merkle_level(cw, 0)[t],
            decreases c@.len() - i,
        {
            leaves.push(hash_leaf(c[i]));
            i = i + 1;
        }
        let mut levels: Vec<Vec<[u8; 32]>> = Vec::new();
        levels.push(leaves);
        let mut l: usize = 0;
        while l < depth
            invariant
                cw == c@,
                depth <= MAX_LOG_DOMAIN,
                cw.len() == pow2(depth as nat),
                l <= depth,
                levels@.len() == l + 1,
                forall|a: int|
                    0 <= a <= l ==> #[trigger] levels@[a]@.len() == merkle_level(cw, a as nat).len(),
                forall|a: int, t: int|
                    0 <= a <= l && 0 <= t < merkle_level(cw, a as nat).len() ==> #[trigger] levels@[a]@[t]@
                        == merkle_level(cw, a as nat)[t],
            decreases depth - l,
        {
            proof {
                lemma_level_len(cw, depth as nat, l as nat);
                lemma_level_len(cw, depth as nat, (l + 1) as nat);
                lemma_pow2_unfold((depth - l) as nat);
            }
            let cur_len: usize = levels[l].len();
            let half: usize = cur_len / 2;
            let mut next: Vec<[u8; 32]> = Vec::new();
            let mut p: usize = 0;
            while p < half
                invariant
                    l < levels@.len(),
                    cur_len == levels@[l as int]@.len(),
                    half == cur_len / 2,
                    levels@[l as int]@.len() == merkle_level(cw, l as nat).len(),
                    forall|t: int|
                        0 <= t < merkle_level(cw, l as nat).len() ==> #[trigger] levels@[l as int]@[t]@
                            == merkle_level(cw, l as nat)[t],
                    p <= half,
                    next@.len() == p,
                    forall|t: int|
                        0 <= t < p ==> #[trigger] next@[t]@ == merkle_level(cw, (l + 1) as nat)[t],
                decreases half - p,
            {
                assert(2 * p + 1 < levels@[l as int]@.len());
                let left = levels[l][2 * p];
                let right = levels[l][2 * p + 1];
                next.push(hash_node(&left, &right));
                p = p + 1;
            }
            levels.push(next);
            l = l + 1;
        }
        MerkleTree { depth, levels, codeword: Ghost(cw) }
    }

    /// The tree's depth.
    pub fn depth(&self) -> (r: usize)
        ensures
            r == self.depth_spec(),
            self.wf() ==> r <= MAX_LOG_DOMAIN,
    {
        self.depth
    }

    /// The root digest.
    pub fn root(&self) -> (r: [u8; 32])
        requires
            self.wf(),
        ensures
            r@ == merkle_root(self.codeword_spec(), self.depth_spec()),
    {
        proof {
            lemma_level_len(self.codeword@, self.depth as nat, self.depth as nat);
            assert(pow2(0) == 1) by {
                vstd::arithmetic::power2::lemma2_to64();
            }
        }
        self.levels[self.depth][0]
    }

    /// The authentication path of leaf `index`.
    pub fn prove_opening(&self, index: usize) -> (r: Vec<[u8; 32]>)
        requires
            self.wf(),
            index < pow2(self.depth_spec()),
        ensures
            digests_view(r@) == auth_path(self.codeword_spec(), self.depth_spec(), index as int),
    {
        let ghost cw = self.codeword@;
        let ghost d = self.depth as nat;
        let mut path: Vec<[u8; 32]> = Vec::new();
        proof {
            vstd::arithmetic::power2::lemma2_to64();
        }
        let mut j: usize = index;
        let mut l: usize = 0;
        while l < self.depth
            invariant
                self.wf(),
                cw == self.codeword@,
                d == self.depth,
                index < pow2(d),
                l <= d,
                j == (index as int) / (pow2(l as nat) as int),
                j < pow2((d - l) as nat),
                path@.len() == l,
                forall|t: int|
                    0 <= t < l ==> #[trigger] path@[t]@ == auth_path(cw, d, index as int)[t],
            decreases d - l,
        {
            proof {
                lemma_level_len(cw, d, l as nat);
                lemma_pow2_unfold((d - l) as nat);
                lemma_pow2_pos(l as nat);
                lemma_pow2_unfold((l + 1) as nat);
                vstd::arithmetic::div_mod::lemma_div_denominator(
                    index as int,
                    pow2(l as nat) as int,
                    2,
                );
            }
            let s: usize = if j % 2 == 0 {
                j + 1
            } else {
                j - 1
            };
            path.push(self.levels[l][s]);
            j = j / 2;
            l = l + 1;
        }
        assert(digests_view(path@) =~= auth_path(cw, d, index as int));
        path
    }
}

/// Whether `path` leads from `value` at leaf `index` to `root` in a tree of
/// depth `depth`.
pub fn verify_opening(path: &[[u8; 32]], value: u128, index: usize, depth: usize, root: &[u8; 32]) -> (r: bool)
    requires
        depth <= MAX_LOG_DOMAIN,
    ensures
        r == (path@.len() == depth && path_root(value, index as int, digests_view(path@)) == root@),
{
    if path.len() != depth {
        return false;
    }
    let ghost pv = digests_view(path@);
    let mut h: [u8; 32] = hash_leaf(value);
    proof {
        vstd::arithmetic::power2::lemma2_to64();
    }
    let mut j: usize = index;
    let mut l: usize = 0;
    while l < depth
        invariant
            depth <= MAX_LOG_DOMAIN,
            path@.len() == depth,
            pv == digests_view(path@),
            l <= depth,
            j == (index as int) / (pow2(l as nat) as int),
            h@ == fold_path(leaf_hash(value), index as int, pv, l as nat),
        decreases depth - l,
    {
        proof {
            lemma_pow2_pos(l as nat);
            lemma_pow2_unfold((l + 1) as nat);
            vstd::arithmetic::div_mod::lemma_div_denominator(index as int, pow2(l as nat) as int, 2);
        }
        let sib = path[l];
        if j % 2 == 0 {
            h = hash_node(&h, &sib);
        } else {
            h = hash_node(&sib, &h);
        }
        j = j / 2;
        l = l + 1;
    }
    digests_equal(&h, root)
}

} // verus!
