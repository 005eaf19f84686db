use frivail::code::FriParams;
use frivail::field::{gf_add, gf_inv, gf_mul};
use frivail::frivail::FriVail;
use frivail::ntt::AdditiveNtt;
use frivail::poly::Utils;
use rand::rngs::StdRng;
use rand::seq::index::sample;
use rand::SeedableRng;

fn create_test_data(size_bytes: usize) -> Vec<u8> {
    (0..size_bytes).map(|i| (i % 256) as u8).collect()
}

#[test]
fn test_friveil_new() {
    const LOG_INV_RATE: usize = 1;
    const NUM_TEST_QUERIES: usize = 3;
    const N_VARS: usize = 10;
    const LOG_NUM_SHARES: usize = 2;

    let fri_vail = FriVail::new(LOG_INV_RATE, NUM_TEST_QUERIES, 2, N_VARS, LOG_NUM_SHARES);

    assert_eq!(fri_vail.log_inv_rate, LOG_INV_RATE);
    assert_eq!(fri_vail.num_test_queries, NUM_TEST_QUERIES);
    assert_eq!(fri_vail.n_vars, N_VARS);
    assert_eq!(fri_vail.log_num_shares, LOG_NUM_SHARES);
}

#[test]
fn test_calculate_evaluation_point_random() {
    const N_VARS: usize = 8;
    let fri_vail = FriVail::new(1, 3, 2, N_VARS, 2);

    let result = fri_vail.calculate_evaluation_point_random();
    assert!(result.is_ok());

    let evaluation_point = result.unwrap();
    assert_eq!(evaluation_point.len(), N_VARS);

    let result2 = fri_vail.calculate_evaluation_point_random();
    assert!(result2.is_ok());
    let evaluation_point2 = result2.unwrap();
    assert_eq!(evaluation_point, evaluation_point2);
}

#[test]
fn test_initialize_fri_context() {
    let fri_vail = FriVail::new(1, 3, 2, 12, 2);

    let test_data = create_test_data(1024);
    let packed_mle_values = Utils::new()
        .bytes_to_packed_mle(&test_data)
        .expect("Failed to create packed MLE");

    let result = fri_vail.initialize_fri_context(packed_mle_values.total_n_vars);
    assert!(result.is_ok());

    let (fri_params, _ntt) = result.unwrap();

    assert_eq!(fri_params.log_inv_rate, fri_vail.log_inv_rate);
    assert_eq!(fri_params.num_test_queries, fri_vail.num_test_queries);
}

#[test]
fn test_calculate_evaluation_claim() {
    let test_data = create_test_data(1024);
    let packed_mle_values = Utils::new()
        .bytes_to_packed_mle(&test_data)
        .expect("Failed to create packed MLE");

    let fri_vail = FriVail::new(1, 3, 2, packed_mle_values.total_n_vars, 3);

    let evaluation_point = fri_vail
        .calculate_evaluation_point_random()
        .expect("Failed to generate evaluation point");

    let eval_point_eq = frivail::eval::eq_ind_partial_eval(&evaluation_point);
    assert_eq!(eval_point_eq.len(), packed_mle_values.packed_values.len());
    let expected = frivail::eval::inner_product(&packed_mle_values.packed_values, &eval_point_eq);

    let result =
        fri_vail.calculate_evaluation_claim(&packed_mle_values.packed_values, &evaluation_point);
    assert!(result.is_ok());

    let evaluation_claim = result.unwrap();
    assert_eq!(evaluation_claim, expected);
    assert_ne!(evaluation_claim, 0u128);
}

#[test]
fn test_codeword_decode() {
    let test_data = create_test_data(512);
    let packed_mle_values = Utils::new()
        .bytes_to_packed_mle(&test_data)
        .expect("Failed to create packed MLE");

    let fri_vail = FriVail::new(1, 3, 2, packed_mle_values.total_n_vars, 3);

    let (fri_params, ntt) = fri_vail
        .initialize_fri_context(packed_mle_values.total_n_vars)
        .expect("Failed to initialize FRI context");

    let encoded_codeword = fri_vail
        .encode_codeword(&packed_mle_values.packed_values, fri_params.clone(), &ntt)
        .expect("Failed to encode codeword");

    let decoded_codeword = fri_vail
        .decode_codeword(&encoded_codeword, fri_params.clone(), &ntt)
        .expect("Failed to decode codeword");

    assert_eq!(
        decoded_codeword, packed_mle_values.packed_values,
        "Decoded codeword should match the packed values"
    );
}

#[test]
fn test_error_correction_reconstruction() {
    let test_data = create_test_data(2048);
    let packed_mle_values = Utils::new()
        .bytes_to_packed_mle(&test_data)
        .expect("Failed to create packed MLE");

    let fri_vail = FriVail::new(1, 3, 2, packed_mle_values.total_n_vars, 3);

    let (fri_params, ntt) = fri_vail
        .initialize_fri_context(packed_mle_values.total_n_vars)
        .expect("Failed to initialize FRI context");

    let encoded_codeword = fri_vail
        .encode_codeword(&packed_mle_values.packed_values, fri_params.clone(), &ntt)
        .expect("Failed to encode codeword");

    let mut corrupted_codeword = encoded_codeword.clone();
    let total_elements = corrupted_codeword.len();
    let corruption_percentage = 0.1;

    let num_corrupted = (total_elements as f64 * corruption_percentage) as usize;
    let mut rng = StdRng::seed_from_u64(42);
    let corrupted_indices = sample(&mut rng, total_elements, num_corrupted).into_vec();

    for &index in &corrupted_indices {
        corrupted_codeword[index] = 0;
    }

    assert_ne!(
        corrupted_codeword, encoded_codeword,
        "Codeword should be corrupted"
    );

    fri_vail
        .reconstruct_codeword_naive(&mut corrupted_codeword, &corrupted_indices)
        .expect("Failed to reconstruct codeword");

    assert_eq!(
        corrupted_codeword, encoded_codeword,
        "Reconstructed codeword should match the encoded codeword"
    );

    let decoded_reconstructed = fri_vail
        .decode_codeword(&corrupted_codeword, fri_params.clone(), &ntt)
        .expect("Failed to decode reconstructed codeword");

    assert_eq!(
        decoded_reconstructed, packed_mle_values.packed_values,
        "Decoded reconstructed codeword should match the packed values"
    );
}

#[test]
fn reconstruction_of_512_bytes_with_a_tenth_erased() {
    let mle = Utils::new().bytes_to_packed_mle(&create_test_data(512)).unwrap();
    let fv = FriVail::new(1, 3, 2, mle.total_n_vars, 2);
    let (p, ntt) = fv.initialize_fri_context(mle.total_n_vars).unwrap();
    let c = fv.encode_codeword(&mle.packed_values, p, &ntt).unwrap();
    assert_eq!(c.len(), 64);
    let erased = sample(&mut StdRng::seed_from_u64(42), c.len(), c.len() / 10).into_vec();
    assert_eq!(erased.len(), 6);
    let mut broken = c.clone();
    for &i in &erased {
        broken[i] = 0;
    }
    fv.reconstruct_codeword_naive(&mut broken, &erased).unwrap();
    assert_eq!(broken, c);
}

// ---- field arithmetic ----

#[test]
fn field_addition_is_xor() {
    assert_eq!(gf_add(0b1100, 0b1010), 0b0110);
    assert_eq!(gf_add(7, 7), 0);
}

#[test]
fn field_multiplication_small_values() {
    assert_eq!(gf_mul(2, 2), 4);
    assert_eq!(gf_mul(3, 3), 5);
    assert_eq!(gf_mul(1, 12345), 12345);
    assert_eq!(gf_mul(12345, 0), 0);
}

#[test]
fn field_multiplication_reduces() {
    // x^127 * x = x^128 = x^7 + x^2 + x + 1
    assert_eq!(gf_mul(1u128 << 127, 2), 0x87);
}

#[test]
fn field_inverse() {
    for a in [1u128, 2, 3, 0x87, u128::MAX, 0x0123_4567_89ab_cdef_0011_2233_4455_6677] {
        assert_eq!(gf_mul(a, gf_inv(a)), 1, "a = {a}");
    }
    assert_eq!(gf_inv(1), 1);
    assert_eq!(gf_inv(0), 0);
}

// ---- byte embedding ----

#[test]
fn embedding_of_empty_data_is_one_zero_scalar() {
    let mle = Utils::new().bytes_to_packed_mle(&[]).unwrap();
    assert_eq!(mle.total_n_vars, 0);
    assert_eq!(mle.packed_values, vec![0u128]);
}

#[test]
fn embedding_reads_little_endian_chunks() {
    let mut data = vec![0u8; 33];
    data[0] = 1;
    data[17] = 1;
    data[32] = 0xff;
    let mle = Utils::new().bytes_to_packed_mle(&data).unwrap();
    assert_eq!(mle.total_n_vars, 2);
    assert_eq!(mle.packed_values, vec![1u128, 256, 0xff, 0]);
}

#[test]
fn embedding_of_full_chunks_keeps_every_byte() {
    let data: Vec<u8> = (0u8..32).collect();
    let mle = Utils::new().bytes_to_packed_mle(&data).unwrap();
    assert_eq!(mle.total_n_vars, 1);
    assert_eq!(mle.packed_values[0], u128::from_le_bytes(data[0..16].try_into().unwrap()));
    assert_eq!(mle.packed_values[1], u128::from_le_bytes(data[16..32].try_into().unwrap()));
}

#[test]
fn embedding_of_1024_bytes_has_64_scalars() {
    let mle = Utils::new().bytes_to_packed_mle(&create_test_data(1024)).unwrap();
    assert_eq!(mle.total_n_vars, 6);
    assert_eq!(mle.packed_values.len(), 64);
}

// ---- context, encoding and decoding ----

fn context(n_vars: usize, log_inv_rate: usize) -> (FriVail, FriParams, AdditiveNtt) {
    let fri_vail = FriVail::new(log_inv_rate, 3, 2, n_vars, 0);
    let (p, ntt) = fri_vail.initialize_fri_context(n_vars).unwrap();
    (fri_vail, p, ntt)
}

#[test]
fn context_rejects_inconsistent_configuration() {
    assert!(FriVail::new(1, 3, 0, 4, 0).initialize_fri_context(4).is_err());
    assert!(FriVail::new(1, 3, 2, 4, 6).initialize_fri_context(4).is_err());
    assert!(FriVail::new(1, 3, 2, 4, 5).initialize_fri_context(4).is_ok());
    assert!(FriVail::new(2, 3, 2, 29, 0).initialize_fri_context(29).is_err());
    assert!(FriVail::new(1, 3, 2, 4, 0).initialize_fri_context(usize::MAX).is_err());
}

#[test]
fn context_parameters() {
    let (_, p, ntt) = context(5, 2);
    assert_eq!(p.log_dim, 5);
    assert_eq!(p.log_inv_rate, 2);
    assert_eq!(p.log_batch_size, 0);
    assert_eq!(p.arity, 2);
    assert_eq!(ntt.log_domain(), 7);
}

#[test]
fn codeword_length_is_rate_times_message() {
    let (fv, p, ntt) = context(3, 2);
    let msg: Vec<u128> = (1..=8).collect();
    let c = fv.encode_codeword(&msg, p, &ntt).unwrap();
    assert_eq!(c.len(), 32);
}

#[test]
fn constant_message_encodes_to_constant_codeword() {
    let (fv, p, ntt) = context(2, 1);
    let c = fv.encode_codeword(&[5, 0, 0, 0], p, &ntt).unwrap();
    assert_eq!(c, vec![5u128; 8]);
}

#[test]
fn linear_message_encodes_to_its_evaluations() {
    // coefficients (a, b) in the novel basis give a + b * X at X = i
    let (fv, p, ntt) = context(2, 1);
    let (a, b) = (0x1234u128, 0x77u128);
    let c = fv.encode_codeword(&[a, b, 0, 0], p, &ntt).unwrap();
    for i in 0..8u128 {
        assert_eq!(c[i as usize], gf_add(a, gf_mul(b, i)), "position {i}");
    }
}

#[test]
fn quadratic_basis_element_encodes_to_its_evaluations() {
    // the third novel basis polynomial is X (X + 1) / (2 * 3)
    let (fv, p, ntt) = context(2, 1);
    let c = fv.encode_codeword(&[0, 0, 1, 0], p, &ntt).unwrap();
    let scale = gf_inv(gf_mul(2, 3));
    for i in 0..8u128 {
        assert_eq!(c[i as usize], gf_mul(gf_mul(i, i ^ 1), scale), "position {i}");
    }
}

#[test]
fn encode_rejects_wrong_message_length() {
    let (fv, p, ntt) = context(2, 1);
    assert!(fv.encode_codeword(&[1, 2, 3], p, &ntt).is_err());
}

#[test]
fn encode_and_decode_reject_mismatched_parameters() {
    let (fv, p, ntt) = context(2, 1);
    let other = FriParams { log_dim: 3, ..p };
    assert!(fv.encode_codeword(&[0u128; 8], other, &ntt).is_err());
    assert!(fv.decode_codeword(&[0u128; 16], other, &ntt).is_err());
}

#[test]
fn decode_rejects_wrong_codeword_length() {
    let (fv, p, ntt) = context(2, 1);
    assert!(fv.decode_codeword(&[0u128; 7], p, &ntt).is_err());
}

#[test]
fn decode_batch_checks_its_lengths() {
    let (fv, _, ntt) = context(2, 1);
    assert!(fv.decode_batch(3, 1, 0, &ntt, &[0u128; 8]).is_ok());
    assert!(fv.decode_batch(3, 1, 0, &ntt, &[0u128; 4]).is_err());
    assert!(fv.decode_batch(2, 1, 0, &ntt, &[0u128; 8]).is_err());
    assert!(fv.decode_batch(3, 4, 0, &ntt, &[0u128; 8]).is_err());
}

#[test]
fn round_trip_at_higher_rate() {
    let (fv, p, ntt) = context(4, 3);
    let msg: Vec<u128> = (0..16).map(|i| (i as u128) * 0x1_0000_0001 + 7).collect();
    let c = fv.encode_codeword(&msg, p, &ntt).unwrap();
    assert_eq!(c.len(), 128);
    assert_eq!(fv.decode_codeword(&c, p, &ntt).unwrap(), msg);
}

// ---- reconstruction ----

#[test]
fn reconstruction_with_nothing_erased_changes_nothing() {
    let fv = FriVail::new(1, 3, 2, 2, 0);
    let mut c = vec![1u128, 2, 3, 4];
    assert!(fv.reconstruct_codeword_naive(&mut c, &[]).is_ok());
    assert_eq!(c, vec![1u128, 2, 3, 4]);
}

#[test]
fn reconstruction_fails_when_everything_is_erased() {
    let fv = FriVail::new(1, 3, 2, 2, 0);
    let mut c = vec![1u128, 2, 3, 4];
    assert!(fv.reconstruct_codeword_naive(&mut c, &[0, 1, 2, 3]).is_err());
    assert_eq!(c, vec![1u128, 2, 3, 4]);
}

#[test]
fn reconstruction_of_a_line() {
    // points of y = 9 + 5 x, with positions 1 and 3 erased
    let fv = FriVail::new(1, 3, 2, 2, 0);
    let line: Vec<u128> = (0..4u128).map(|x| gf_add(9, gf_mul(5, x))).collect();
    let mut c = line.clone();
    c[1] = 0;
    c[3] = 0;
    assert!(fv.reconstruct_codeword_naive(&mut c, &[3, 1]).is_ok());
    assert_eq!(c, line);
}

#[test]
fn reconstruction_from_half_of_the_codeword() {
    let data = create_test_data(256);
    let mle = Utils::new().bytes_to_packed_mle(&data).unwrap();
    let fv = FriVail::new(1, 3, 2, mle.total_n_vars, 0);
    let (p, ntt) = fv.initialize_fri_context(mle.total_n_vars).unwrap();
    let c = fv.encode_codeword(&mle.packed_values, p, &ntt).unwrap();
    let erased: Vec<usize> = (0..c.len()).filter(|i| i % 2 == 1).collect();
    let mut broken = c.clone();
    for &i in &erased {
        broken[i] = 0xdead;
    }
    fv.reconstruct_codeword_naive(&mut broken, &erased).unwrap();
    assert_eq!(broken, c);
}

// ---- evaluation claims ----

#[test]
fn evaluation_claim_of_one_variable() {
    let fv = FriVail::new(1, 3, 2, 1, 0);
    let (a, b, r) = (0x11u128, 0x2au128, 0x1234_5678u128);
    let y = fv.calculate_evaluation_claim(&[a, b], &[r]).unwrap();
    assert_eq!(y, gf_add(gf_mul(a, gf_add(1, r)), gf_mul(b, r)));
}

#[test]
fn evaluation_claim_at_a_hypercube_point_is_the_value() {
    let fv = FriVail::new(1, 3, 2, 2, 0);
    let values = [3u128, 5, 7, 11];
    // x = (1, 0) is index 1 in little-endian order
    assert_eq!(fv.calculate_evaluation_claim(&values, &[1, 0]).unwrap(), 5);
    assert_eq!(fv.calculate_evaluation_claim(&values, &[0, 1]).unwrap(), 7);
    assert_eq!(fv.calculate_evaluation_claim(&values, &[1, 1]).unwrap(), 11);
}

#[test]
fn evaluation_claim_rejects_mismatched_lengths() {
    let fv = FriVail::new(1, 3, 2, 2, 0);
    assert!(fv.calculate_evaluation_claim(&[1, 2, 3], &[1, 2]).is_err());
    assert!(fv.calculate_evaluation_claim(&[1, 2], &[]).is_err());
}

#[test]
fn eq_table_of_one_coordinate() {
    let w = frivail::eval::eq_ind_partial_eval(&[6]);
    assert_eq!(w, vec![7u128, 6]);
}

#[test]
fn evaluation_point_depends_on_the_seed_stream() {
    let p = FriVail::new(1, 3, 2, 4, 0).calculate_evaluation_point_random().unwrap();
    assert_eq!(p.len(), 4);
    assert_ne!(p[0], p[1]);
    assert!(p.iter().any(|&v| v != 0));
    let shorter = FriVail::new(1, 3, 2, 2, 0).calculate_evaluation_point_random().unwrap();
    assert_eq!(&p[..2], &shorter[..]);
}
