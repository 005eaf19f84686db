//! The Reed-Solomon code of the scheme: a message is read as coefficients in
//! the novel polynomial basis and evaluated over the additive NTT's domain.

use vstd::prelude::*;
use vstd::arithmetic::power2::{pow2, lemma_pow2_pos};
use crate::ntt::{fwd_layers, inv_layers, lemma_layers_round_trip};

verus! {

/// Parameters of the FRI protocol and of its Reed-Solomon code.
#[derive(Clone, Copy, Debug, PartialEq, Eq)]
pub struct FriParams {
    /// Logarithm of the code's dimension (the message length).
    pub log_dim: usize,
    /// Logarithm of the inverse rate.
    pub log_inv_rate: usize,
    /// Logarithm of the number of interleaved messages (zero here).
    pub log_batch_size: usize,
    /// Number of variables folded per FRI round.
    pub arity: usize,
    /// Number of FRI test queries.
    pub num_test_queries: usize,
}

impl FriParams {
    /// Logarithm of the code's block length.
    pub open spec fn log_len_spec(&self) -> nat {
        (self.log_dim + self.log_inv_rate) as nat
    }

    /// Logarithm of the encoded buffer length: block length times batch size.
    pub open spec fn log_code_spec(&self) -> nat {
        (self.log_dim + self.log_inv_rate + self.log_batch_size) as nat
    }

    /// Logarithm of the message buffer length.
    pub open spec fn log_msg_spec(&self) -> nat {
        (self.log_dim + self.log_batch_size) as nat
    }
}

/// `v` repeated until it fills `n` positions.
pub open spec fn replicate(v: Seq<u128>, n: nat) -> Seq<u128> {
    Seq::new(n, |i: int| v[i % (v.len() as int)])
}

/// The codeword of message `v` (of length `2^(d - r)`) over `2^d` points
/// with inverse rate `2^r` and batch size `2^b`: the message is copied into
/// each of the `2^r` cosets, which are transformed independently.
pub open spec fn encode_spec(v: Seq<u128>, d: nat, r: nat, b: nat) -> Seq<u128> {
    fwd_layers(replicate(v, pow2(d)), d, r, (d - b) as nat)
}

/// The message of `m` scalars recovered from the codeword `c` over `2^d`
/// points: invert the layers that encoding applied and keep the first coset.
pub open spec fn decode_spec(c: Seq<u128>, d: nat, r: nat, b: nat, m: nat) -> Seq<u128> {
    inv_layers(c, d, r, (d - b) as nat).take(m as int)
}

/// Decoding a codeword gives back the message it encodes.
pub proof fn lemma_decode_encode(v: Seq<u128>, d: nat, r: nat, b: nat)
    requires
        r + b <= d,
        v.len() == pow2((d - r) as nat),
    ensures
        decode_spec(encode_spec(v, d, r, b), d, r, b, v.len()) == v,
{
    let rep = replicate(v, pow2(d));
    lemma_pow2_pos((d - r) as nat);
    if r > 0 {
        vstd::arithmetic::power2::lemma_pow2_strictly_increases((d - r) as nat, d);
    }
    lemma_layers_round_trip(rep, d, r, (d - b) as nat);
    assert forall|i: int| 0 <= i < v.len() implies rep[i] == v[i] by {
        vstd::arithmetic::div_mod::lemma_small_mod(i as nat, v.len());
    }
    assert(rep.take(v.len() as int) =~= v);
}

} // verus!
