//! Embedding of raw bytes into a multilinear extension over GF(2^128).

use vstd::prelude::*;
use vstd::arithmetic::power2::{pow2, lemma_pow2_unfold};

verus! {

/// Number of bytes per field element (128 bits = 16 bytes).
pub const BYTES_PER_ELEMENT: usize = 16;

/// The byte at position `i`, or zero past the end of the data.
pub open spec fn byte_at(data: Seq<u8>, i: int) -> u8 {
    if 0 <= i < data.len() {
        data[i]
    } else {
        0
    }
}

/// The little-endian value of the `k` bytes starting at `start` (zero-extended).
pub open spec fn le_value(data: Seq<u8>, start: int, k: nat) -> nat
    decreases k,
{
    if k == 0 {
        0
    } else {
        byte_at(data, start) as nat + 256 * le_value(data, start + 1, (k - 1) as nat)
    }
}

/// `256^k`.
pub open spec fn pow256(k: nat) -> nat
    decreases k,
{
    if k == 0 {
        1
    } else {
        256 * pow256((k - 1) as nat)
    }
}

/// The scalar made of the `i`-th 16-byte chunk of `data`, read little-endian;
/// a short final chunk is zero-extended.
pub open spec fn chunk_scalar(data: Seq<u8>, i: int) -> u128 {
    le_value(data, i * 16, 16) as u128
}

/// Number of 16-byte chunks needed to hold `len` bytes.
pub open spec fn num_chunks(len: nat) -> nat {
    (len + 15) / 16
}

/// `n` is the least number of variables whose hypercube holds `m` values.
pub open spec fn is_log_ceil(m: nat, n: nat) -> bool {
    &&& m <= pow2(n)
    &&& (n == 0 || pow2((n - 1) as nat) < m)
}

/// The padded evaluation vector of the multilinear extension of `data`, with
/// `n_vars` variables: the chunk scalars, then zeros.
pub open spec fn mle_values(data: Seq<u8>, n_vars: nat) -> Seq<u128> {
    Seq::new(
        pow2(n_vars),
        |i: int|
            if i < num_chunks(data.len()) {
                chunk_scalar(data, i)
            } else {
                0u128
            },
    )
}

/// Stateless helper for turning bytes into multilinear extensions.
pub struct Utils {}

/// A multilinear extension together with its number of variables.
pub struct PackedMLE {
    /// The evaluations over the Boolean hypercube, in little-endian index order.
    pub packed_values: Vec<u128>,
    /// Number of variables: `packed_values.len() == 2^total_n_vars`.
    pub total_n_vars: usize,
}

impl PackedMLE {
    /// The evaluation vector has exactly `2^total_n_vars` entries.
    pub open spec fn wf(&self) -> bool {
        self.packed_values@.len() == pow2(self.total_n_vars as nat)
    }
}

proof fn lemma_le_value_bound(data: Seq<u8>, start: int, k: nat)
    ensures
        le_value(data, start, k) < pow256(k),
    decreases k,
{
    if k > 0 {
        lemma_le_value_bound(data, start + 1, (k - 1) as nat);
        let b = byte_at(data, start) as nat;
        let rest = le_value(data, start + 1, (k - 1) as nat);
        let p = pow256((k - 1) as nat);
        assert(b + 256 * rest < 256 * p) by (nonlinear_arith)
            requires
                b < 256,
                rest < p,
        ;
    }
}

impl Utils {
    /// Create a new helper.
    pub fn new() -> (r: Utils) {
        Utils {}
    }

    /// The scalar of the `i`-th 16-byte chunk of `data`.
    pub fn bytes_to_scalar(&self, data: &[u8], i: usize) -> (r: u128)
        requires
            i < num_chunks(data@.len()),
        ensures
            r == chunk_scalar(data@, i as int),
    {
        let len: usize = data.len();
        proof {
            assert(i * 16 < len) by (nonlinear_arith)
                requires
                    i < (len + 15) / 16,
            ;
        }
        let start: usize = i * 16;
        let mut v: u128 = 0;
        let mut t: usize = 16;
        proof {
            reveal_with_fuel(pow256, 17);
            assert(pow256(16) == 0x1_0000_0000_0000_0000_0000_0000_0000_0000);
        }
        while t > 0
            invariant
                0 <= t <= 16,
                start == i * 16,
                start < data@.len(),
                v as nat == le_value(data@, start + t, (16 - t) as nat),
            decreases t,
        {
            let b: u8 = if t - 1 < data.len() - start {
                data[start + (t - 1)]
            } else {
                0
            };
            proof {
                lemma_le_value_bound(data@, (start + t) as int, (16 - t) as nat);
                reveal_with_fuel(pow256, 17);
                assert(pow256((16 - t) as nat) <= pow256(15));
                assert(v * 256 + b <= 0xffff_ffff_ffff_ffff_ffff_ffff_ffff_ffff) by (nonlinear_arith)
                    requires
                        v < pow256(15),
                        pow256(15) == 0x1_0000_0000_0000_0000_0000_0000_0000_00,
                        b < 256,
                ;
            }
            v = v * 256 + b as u128;
            t = t - 1;
        }
        v
    }

    /// Convert raw bytes to a multilinear extension: split the bytes into
    /// 16-byte little-endian chunks, one scalar each, and pad with zero
    /// scalars up to the next power of two (at least one scalar).
    pub fn bytes_to_packed_mle(&self, data: &[u8]) -> (r: Result<PackedMLE, String>)
        ensures
            r is Ok,
            r matches Ok(mle) ==> {
                &&& mle.wf()
                &&& is_log_ceil(num_chunks(data@.len()), mle.total_n_vars as nat)
                &&& mle.packed_values@ == mle_values(data@, mle.total_n_vars as nat)
            },
    {
        let num_elements: usize = data.len() / 16 + if data.len() % 16 == 0 {
            0
        } else {
            1
        };
        assert(num_elements == num_chunks(data@.len()));
        let mut padded: usize = 1;
        let mut n_vars: usize = 0;
        proof {
            assert(pow2(0) == 1) by {
                vstd::arithmetic::power2::lemma2_to64();
            }
        }
        while padded < num_elements
            invariant
                num_elements <= usize::MAX / 16 + 1,
                padded as nat == pow2(n_vars as nat),
                n_vars == 0 || pow2((n_vars - 1) as nat) < num_elements,
                n_vars < padded,
            decreases usize::MAX - padded,
        {
            proof {
                lemma_pow2_unfold((n_vars + 1) as nat);
            }
            padded = padded * 2;
            n_vars = n_vars + 1;
        }
        let mut values: Vec<u128> = Vec::new();
        let mut i: usize = 0;
        while i < padded
            invariant
                num_elements == num_chunks(data@.len()),
                num_elements <= padded,
                padded as nat == pow2(n_vars as nat),
                i <= padded,
                values@.len() == i,
                forall|j: int|
                    0 <= j < i ==> values@[j] == mle_values(data@, n_vars as nat)[j],
            decreases padded - i,
        {
            let s: u128 = if i < num_elements {
                self.bytes_to_scalar(data, i)
            } else {
                0
            };
            values.push(s);
            i = i + 1;
        }
        assert(values@ =~= mle_values(data@, n_vars as nat));
        Ok(PackedMLE { packed_values: values, total_n_vars: n_vars })
    }
}

} // verus!
