//! The FRI-Vail instance: configuration, Reed-Solomon encoding and decoding,
//! Merkle commitments with single-position inclusion proofs, erasure
//! reconstruction and evaluation claims.

use vstd::prelude::*;
use vstd::arithmetic::power2::pow2;
use crate::lagrange::{
    known_points, interpolate, reconstructed, collect_known, barycentric_weights,
    interpolate_at_point, bary_weight,
};
use crate::ntt::{AdditiveNtt, MAX_LOG_DOMAIN, inv_layers, pow2_usize};
use crate::code::{FriParams, encode_spec, decode_spec};
use crate::eval::{mle_eval, eq_ind_partial_eval, inner_product};
use crate::poly::{PackedMLE, mle_values, chunk_scalar, num_chunks, is_log_ceil};
use crate::merkle::{MerkleTree, merkle_root, auth_path, path_root, digests_view, verify_opening};

verus! {

/// A FRI-Vail instance: the configuration of one commitment scheme.
pub struct FriVail {
    /// Logarithm of the inverse rate of the Reed-Solomon code.
    pub log_inv_rate: usize,
    /// Number of FRI test queries (the security parameter).
    pub num_test_queries: usize,
    /// Number of variables folded per FRI round.
    pub arity: usize,
    /// Number of variables of the multilinear extension.
    pub n_vars: usize,
    /// Logarithm of the number of shares the NTT work is split into.
    pub log_num_shares: usize,
}

/// The first `n` values of type `u128` drawn from rand's `StdRng` seeded with
/// thirty-two zero bytes.
pub uninterp spec fn zero_seed_draws(n: nat) -> Seq<u128>;

/// Relies on rand's `StdRng::from_seed` and `RngExt::random_iter`: a
/// generator built from a fixed seed yields the same stream on every run, so
/// the values depend on `n` alone; `take(n)` keeps `n` of them.
#[verifier::external_body]
fn draw_from_zero_seed(n: usize) -> (r: Vec<u128>)
    ensures
        r@ == zero_seed_draws(n as nat),
        r@.len() == n,
{
    let rng = <rand::rngs::StdRng as rand::SeedableRng>::from_seed([0u8; 32]);
    rand::RngExt::random_iter::<u128>(rng).take(n).collect()
}

/// The result of a commitment: the Merkle root, the codeword and its tree.
pub struct CommitOutput {
    /// The root of the Merkle tree over the codeword.
    pub commitment: [u8; 32],
    /// The Reed-Solomon codeword of the committed message.
    pub codeword: Vec<u128>,
    /// The tree, kept by the prover to answer openings.
    pub committed: MerkleTree,
}

/// The parameters describe a code over exactly the NTT's domain.
pub open spec fn params_match(p: FriParams, ntt: AdditiveNtt) -> bool {
    p.log_code_spec() == ntt.log_domain_spec()
}

/// Whether an instance accepts a message of `2^packed_log_len` scalars: the
/// fold arity is positive, the code's domain is supported, and the NTT is
/// split into no more shares than the domain has points.
pub open spec fn context_ok(v: FriVail, packed_log_len: nat) -> bool {
    &&& v.arity >= 1
    &&& packed_log_len + v.log_inv_rate <= MAX_LOG_DOMAIN
    &&& v.log_num_shares <= packed_log_len + v.log_inv_rate
}

/// Decoding the encoding of a message under parameters `p` gives the
/// message back.
pub proof fn lemma_codeword_round_trip(p: FriParams, v: Seq<u128>)
    requires
        v.len() == pow2(p.log_msg_spec()),
    ensures
        decode_spec(
            encode_spec(v, p.log_code_spec(), p.log_inv_rate as nat, p.log_batch_size as nat),
            p.log_code_spec(),
            p.log_inv_rate as nat,
            p.log_batch_size as nat,
            pow2(p.log_msg_spec()),
        ) == v,
{
    crate::code::lemma_decode_encode(
        v,
        p.log_code_spec(),
        p.log_inv_rate as nat,
        p.log_batch_size as nat,
    );
}

/// For any bytes embedded with `n_vars` variables, the codeword at inverse
/// rate `2^log_inv_rate` has `2^(n_vars + log_inv_rate)` positions, and
/// decoding it gives back every chunk scalar of the bytes, then zeros.
pub proof fn lemma_embedded_bytes_encoding(data: Seq<u8>, n_vars: nat, log_inv_rate: nat)
    requires
        is_log_ceil(num_chunks(data.len()), n_vars),
    ensures
        ({
            let v = mle_values(data, n_vars);
            let d = n_vars + log_inv_rate;
            let c = encode_spec(v, d, log_inv_rate, 0);
            &&& c.len() == pow2(d)
            &&& decode_spec(c, d, log_inv_rate, 0, pow2(n_vars)) == v
            &&& forall|i: int|
                0 <= i < pow2(n_vars) ==> #[trigger] decode_spec(c, d, log_inv_rate, 0, pow2(n_vars))[i]
                    == if i < num_chunks(data.len()) {
                    chunk_scalar(data, i)
                } else {
                    0u128
                }
        }),
{
    let v = mle_values(data, n_vars);
    let d = n_vars + log_inv_rate;
    crate::ntt::lemma_fwd_layers_len(
        crate::code::replicate(v, pow2(d)),
        d,
        log_inv_rate,
        d,
    );
    crate::code::lemma_decode_encode(v, d, log_inv_rate, 0);
}

impl FriVail {
    /// Create a new instance from its configuration.
    pub fn new(
        log_inv_rate: usize,
        num_test_queries: usize,
        arity: usize,
        n_vars: usize,
        log_num_shares: usize,
    ) -> (r: FriVail)
        ensures
            r.log_inv_rate == log_inv_rate,
            r.num_test_queries == num_test_queries,
            r.arity == arity,
            r.n_vars == n_vars,
            r.log_num_shares == log_num_shares,
    {
        FriVail { log_inv_rate, num_test_queries, arity, n_vars, log_num_shares }
    }

    /// Reconstruct erased positions of a codeword by Lagrange interpolation
    /// through every position that was not erased, on the domain `x_i = i`.
    ///
    /// Fails, leaving the codeword as it was, when positions are to be
    /// reconstructed but none is known.
    pub fn reconstruct_codeword_naive(
        &self,
        corrupted_codeword: &mut Vec<u128>,
        corrupted_indices: &[usize],
    ) -> (r: Result<(), String>)
        requires
            forall|t: int|
                0 <= t < corrupted_indices@.len() ==> corrupted_indices@[t] < old(
                    corrupted_codeword,
                )@.len(),
        ensures
            r is Err <==> (corrupted_indices@.len() > 0 && known_points(
                old(corrupted_codeword)@,
                corrupted_indices@,
            ).len() == 0),
            r is Ok ==> final(corrupted_codeword)@ == reconstructed(
                old(corrupted_codeword)@,
                corrupted_indices@,
            ),
            r is Err ==> final(corrupted_codeword)@ == old(corrupted_codeword)@,
    {
        let ghost c0 = corrupted_codeword@;
        let ghost idx = corrupted_indices@;
        if corrupted_indices.len() == 0 {
            assert(corrupted_codeword@ =~= reconstructed(c0, idx));
            return Ok(());
        }
        let known = collect_known(corrupted_codeword, corrupted_indices);
        if known.len() == 0 {
            return Err(String::from_str("No known points available for reconstruction"));
        }
        let weights = barycentric_weights(&known);
        let mut t: usize = 0;
        while t < corrupted_indices.len()
            invariant
                weights@.len() == known@.len(),
                forall|j: int| 0 <= j < known@.len() ==> weights@[j] == bary_weight(known@, j),
                t <= idx.len(),
                idx == corrupted_indices@,
                known@ == known_points(c0, idx),
                corrupted_codeword@.len() == c0.len(),
                forall|u: int| 0 <= u < idx.len() ==> idx[u] < c0.len(),
                forall|i: int|
                    0 <= i < c0.len() ==> corrupted_codeword@[i] == (if (exists|u: int|
                        0 <= u < t && idx[u] == i) {
                        interpolate(known@, i as u128)
                    } else {
                        c0[i]
                    }),
            decreases idx.len() - t,
        {
            let missing: usize = corrupted_indices[t];
            let value = interpolate_at_point(missing as u128, &known, &weights);
            corrupted_codeword.set(missing, value);
            assert forall|i: int| 0 <= i < c0.len() implies corrupted_codeword@[i] == (if (exists|
                u: int,
            | 0 <= u < t + 1 && idx[u] == i) {
                interpolate(known@, i as u128)
            } else {
                c0[i]
            }) by {
                if i == missing as int {
                    assert(idx[t as int] == i);
                } else {
                    if exists|u: int| 0 <= u < t + 1 && idx[u] == i {
                        let u = choose|u: int| 0 <= u < t + 1 && idx[u] == i;
                        assert(u < t);
                    }
                }
            }
            t = t + 1;
        }
        assert(corrupted_codeword@ =~= reconstructed(c0, idx));
        Ok(())
    }

    /// Build the FRI parameters (with batch size one) and the NTT over the
    /// code's domain of dimension `packed_buffer_log_len + log_inv_rate`.
    pub fn initialize_fri_context(&self, packed_buffer_log_len: usize) -> (r: Result<
        (FriParams, AdditiveNtt),
        String,
    >)
        ensures
            r is Ok <==> context_ok(*self, packed_buffer_log_len as nat),
            r matches Ok((p, ntt)) ==> {
                &&& p == (FriParams {
                    log_dim: packed_buffer_log_len,
                    log_inv_rate: self.log_inv_rate,
                    log_batch_size: 0,
                    arity: self.arity,
                    num_test_queries: self.num_test_queries,
                })
                &&& ntt.wf()
                &&& ntt.log_domain_spec() == packed_buffer_log_len + self.log_inv_rate
                &&& ntt.log_num_shares_spec() == self.log_num_shares
                &&& params_match(p, ntt)
            },
    {
        if self.arity == 0 {
            return Err(String::from_str("FRI arity must be positive"));
        }
        if packed_buffer_log_len > MAX_LOG_DOMAIN || self.log_inv_rate > MAX_LOG_DOMAIN
            - packed_buffer_log_len {
            return Err(String::from_str("code length exceeds the supported domain"));
        }
        let code_log_len: usize = packed_buffer_log_len + self.log_inv_rate;
        if self.log_num_shares > code_log_len {
            return Err(String::from_str("more NTT shares than domain points"));
        }
        let ntt = AdditiveNtt::new(code_log_len, self.log_num_shares);
        let params = FriParams {
            log_dim: packed_buffer_log_len,
            log_inv_rate: self.log_inv_rate,
            log_batch_size: 0,
            arity: self.arity,
            num_test_queries: self.num_test_queries,
        };
        Ok((params, ntt))
    }

    /// Whether the parameters describe a code over exactly the NTT's domain.
    fn check_params(fri_params: &FriParams, ntt: &AdditiveNtt) -> (r: bool)
        requires
            ntt.wf(),
        ensures
            r == params_match(*fri_params, *ntt),
            r ==> fri_params.log_code_spec() <= MAX_LOG_DOMAIN,
    {
        let dom = ntt.log_domain();
        fri_params.log_dim <= dom && fri_params.log_inv_rate <= dom - fri_params.log_dim
            && fri_params.log_batch_size == dom - fri_params.log_dim - fri_params.log_inv_rate
    }

    /// Reed-Solomon encode a message of `2^(log_dim + log_batch_size)`
    /// scalars into a codeword of `2^(log_dim + log_inv_rate + log_batch_size)`.
    pub fn encode_codeword(&self, data: &[u128], fri_params: FriParams, ntt: &AdditiveNtt) -> (r:
        Result<Vec<u128>, String>)
        requires
            ntt.wf(),
        ensures
            r is Ok <==> (params_match(fri_params, *ntt) && data@.len() == pow2(
                fri_params.log_msg_spec(),
            )),
            r matches Ok(c) ==> {
                &&& c@ == encode_spec(
                    data@,
                    fri_params.log_code_spec(),
                    fri_params.log_inv_rate as nat,
                    fri_params.log_batch_size as nat,
                )
                &&& c@.len() == pow2(fri_params.log_code_spec())
            },
    {
        if !Self::check_params(&fri_params, ntt) {
            return Err(String::from_str("FRI parameters do not match the NTT domain"));
        }
        let m = pow2_usize(fri_params.log_dim + fri_params.log_batch_size);
        if data.len() != m {
            return Err(String::from_str("message length does not match the code dimension"));
        }
        let n = pow2_usize(ntt.log_domain());
        let ghost dd = ntt.log_domain_spec();
        proof {
            vstd::arithmetic::power2::lemma_pow2_pos(fri_params.log_msg_spec());
        }
        let mut code: Vec<u128> = Vec::new();
        let mut i: usize = 0;
        while i < n
            invariant
                n == pow2(dd),
                m == data@.len(),
                m > 0,
                i <= n,
                code@.len() == i,
                forall|j: int|
                    0 <= j < i ==> code@[j] == crate::code::replicate(data@, pow2(dd))[j],
            decreases n - i,
        {
            code.push(data[i % m]);
            i = i + 1;
        }
        assert(code@ =~= crate::code::replicate(data@, pow2(dd)));
        ntt.forward_transform(&mut code, fri_params.log_inv_rate, fri_params.log_batch_size);
        proof {
            crate::ntt::lemma_fwd_layers_len(
                crate::code::replicate(data@, pow2(dd)),
                dd,
                fri_params.log_inv_rate as nat,
                (dd - fri_params.log_batch_size) as nat,
            );
        }
        Ok(code)
    }

    /// Invert the NTT layers `log_inv .. log_len + log_batch_size` of a
    /// buffer of `2^(log_len + log_batch_size)` scalars.
    pub fn decode_batch(
        &self,
        log_len: usize,
        log_inv: usize,
        log_batch_size: usize,
        ntt: &AdditiveNtt,
        data: &[u128],
    ) -> (r: Result<Vec<u128>, String>)
        requires
            ntt.wf(),
        ensures
            r is Ok <==> (log_len + log_batch_size == ntt.log_domain_spec() && log_inv <= log_len
                && data@.len() == pow2(ntt.log_domain_spec())),
            r matches Ok(o) ==> o@ == inv_layers(
                data@,
                ntt.log_domain_spec(),
                log_inv as nat,
                log_len as nat,
            ),
    {
        let dom = ntt.log_domain();
        if log_len > dom || log_batch_size != dom - log_len || log_inv > log_len {
            return Err(String::from_str("decoding parameters do not match the NTT domain"));
        }
        let expected_data_len = pow2_usize(dom);
        if data.len() != expected_data_len {
            return Err(String::from_str("unexpected data length"));
        }
        let mut code: Vec<u128> = Vec::new();
        let mut i: usize = 0;
        while i < data.len()
            invariant
                i <= data@.len(),
                code@ == data@.subrange(0, i as int),
            decreases data@.len() - i,
        {
            code.push(data[i]);
            i = i + 1;
        }
        assert(code@ =~= data@);
        ntt.inverse_transform(&mut code, log_inv, log_batch_size);
        Ok(code)
    }

    /// Decode a codeword back to its message: invert the NTT and drop the
    /// redundant cosets.
    pub fn decode_codeword(&self, codeword: &[u128], fri_params: FriParams, ntt: &AdditiveNtt) -> (r:
        Result<Vec<u128>, String>)
        requires
            ntt.wf(),
        ensures
            r is Ok <==> (params_match(fri_params, *ntt) && codeword@.len() == pow2(
                fri_params.log_code_spec(),
            )),
            r matches Ok(v) ==> v@ == decode_spec(
                codeword@,
                fri_params.log_code_spec(),
                fri_params.log_inv_rate as nat,
                fri_params.log_batch_size as nat,
                pow2(fri_params.log_msg_spec()),
            ),
    {
        if !Self::check_params(&fri_params, ntt) {
            return Err(String::from_str("FRI parameters do not match the NTT domain"));
        }
        let log_len = fri_params.log_dim + fri_params.log_inv_rate;
        let decoded = self.decode_batch(
            log_len,
            fri_params.log_inv_rate,
            fri_params.log_batch_size,
            ntt,
            codeword,
        );
        match decoded {
            Err(e) => Err(e),
            Ok(full) => {
                let trim_len = pow2_usize(fri_params.log_dim + fri_params.log_batch_size);
                proof {
                    crate::ntt::lemma_inv_layers_len(
                        codeword@,
                        ntt.log_domain_spec(),
                        fri_params.log_inv_rate as nat,
                        log_len as nat,
                    );
                    if fri_params.log_inv_rate > 0 {
                        vstd::arithmetic::power2::lemma_pow2_strictly_increases(
                            fri_params.log_msg_spec(),
                            fri_params.log_code_spec(),
                        );
                    }
                }
                let mut out: Vec<u128> = Vec::new();
                let mut i: usize = 0;
                while i < trim_len
                    invariant
                        trim_len <= full@.len(),
                        i <= trim_len,
                        out@ == full@.subrange(0, i as int),
                    decreases trim_len - i,
                {
                    out.push(full[i]);
                    i = i + 1;
                }
                assert(out@ =~= full@.take(trim_len as int));
                Ok(out)
            },
        }
    }

    /// A pseudo-random evaluation point with `n_vars` coordinates, drawn from
    /// a generator with a fixed seed: the same point on every call.
    pub fn calculate_evaluation_point_random(&self) -> (r: Result<Vec<u128>, String>)
        ensures
            r matches Ok(p) && p@ == zero_seed_draws(self.n_vars as nat) && p@.len() == self.n_vars,
    {
        Ok(draw_from_zero_seed(self.n_vars))
    }

    /// The evaluation claim `<values, eq(point, .)>`: the value at `point` of
    /// the multilinear extension whose hypercube values are `values`.
    ///
    /// Fails when `values` does not have `2^point.len()` entries, or when the
    /// point has more coordinates than the supported domain.
    pub fn calculate_evaluation_claim(&self, values: &[u128], evaluation_point: &[u128]) -> (r:
        Result<u128, String>)
        ensures
            r is Ok <==> (evaluation_point@.len() <= MAX_LOG_DOMAIN && values@.len() == pow2(
                evaluation_point@.len(),
            )),
            r matches Ok(y) ==> y == mle_eval(values@, evaluation_point@),
    {
        if evaluation_point.len() > MAX_LOG_DOMAIN {
            return Err(String::from_str("evaluation point has too many coordinates"));
        }
        let n = pow2_usize(evaluation_point.len());
        if values.len() != n {
            return Err(String::from_str("values do not cover the hypercube of the point"));
        }
        let eq = eq_ind_partial_eval(evaluation_point);
        Ok(inner_product(values, &eq))
    }

    /// Commit to a multilinear extension: encode it and build the Merkle
    /// tree over the codeword, one leaf per position.
    pub fn commit(&self, packed_mle: &PackedMLE, fri_params: FriParams, ntt: &AdditiveNtt) -> (r:
        Result<CommitOutput, String>)
        requires
            ntt.wf(),
        ensures
            r is Ok <==> (params_match(fri_params, *ntt) && packed_mle.packed_values@.len() == pow2(
                fri_params.log_msg_spec(),
            )),
            r matches Ok(out) ==> {
                &&& out.codeword@ == encode_spec(
                    packed_mle.packed_values@,
                    fri_params.log_code_spec(),
                    fri_params.log_inv_rate as nat,
                    fri_params.log_batch_size as nat,
                )
                &&& out.committed.wf()
                &&& out.committed.codeword_spec() == out.codeword@
                &&& out.committed.depth_spec() == fri_params.log_code_spec()
                &&& out.commitment@ == merkle_root(out.codeword@, fri_params.log_code_spec())
            },
    {
        let encoded = self.encode_codeword(packed_mle.packed_values.as_slice(), fri_params, ntt);
        match encoded {
            Err(e) => Err(e),
            Ok(codeword) => {
                let depth = ntt.log_domain();
                let committed = MerkleTree::build(&codeword, depth);
                let commitment = committed.root();
                Ok(CommitOutput { commitment, codeword, committed })
            },
        }
    }

    /// The Merkle authentication path of codeword position `index`.
    pub fn inclusion_proof(&self, committed: &MerkleTree, index: usize) -> (r: Result<
        Vec<[u8; 32]>,
        String,
    >)
        requires
            committed.wf(),
        ensures
            r is Ok <==> index < pow2(committed.depth_spec()),
            r matches Ok(path) ==> digests_view(path@) == auth_path(
                committed.codeword_spec(),
                committed.depth_spec(),
                index as int,
            ),
    {
        let n = pow2_usize(committed.depth());
        if index >= n {
            return Err(String::from_str("index outside the committed codeword"));
        }
        Ok(committed.prove_opening(index))
    }

    /// Check that `proof` opens position `index` of the codeword committed to
    /// by `commitment` to the single value in `data`.
    pub fn verify_inclusion_proof(
        &self,
        proof: &[[u8; 32]],
        data: &[u128],
        index: usize,
        fri_params: &FriParams,
        commitment: [u8; 32],
    ) -> (r: Result<(), String>)
        ensures
            r is Ok <==> {
                &&& fri_params.log_code_spec() <= MAX_LOG_DOMAIN
                &&& data@.len() == 1
                &&& index < pow2(fri_params.log_code_spec())
                &&& proof@.len() == fri_params.log_code_spec()
                &&& path_root(data@[0], index as int, digests_view(proof@)) == commitment@
            },
    {
        if fri_params.log_dim > MAX_LOG_DOMAIN || fri_params.log_inv_rate > MAX_LOG_DOMAIN
            - fri_params.log_dim || fri_params.log_batch_size > MAX_LOG_DOMAIN - fri_params.log_dim
            - fri_params.log_inv_rate {
            return Err(String::from_str("tree depth exceeds the supported domain"));
        }
        let depth: usize = fri_params.log_dim + fri_params.log_inv_rate + fri_params.log_batch_size;
        if data.len() != 1 {
            return Err(String::from_str("a leaf holds exactly one value"));
        }
        if index >= pow2_usize(depth) {
            return Err(String::from_str("index outside the committed codeword"));
        }
        if verify_opening(proof, data[0], index, depth, &commitment) {
            Ok(())
        } else {
            Err(String::from_str("inclusion proof does not lead to the commitment"))
        }
    }
}

} // verus!
