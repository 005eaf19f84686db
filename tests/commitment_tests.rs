use frivail::frivail::FriVail;
use frivail::poly::Utils;
use rand::rngs::StdRng;
use rand::seq::index::sample;
use rand::SeedableRng;

fn create_test_data(size_bytes: usize) -> Vec<u8> {
    (0..size_bytes).map(|i| (i % 256) as u8).collect()
}

#[test]
fn test_commit_and_inclusion_proofs() {
    let test_data = create_test_data(1024);
    let packed_mle_values = Utils::new()
        .bytes_to_packed_mle(&test_data)
        .expect("Failed to create packed MLE");

    let fri_vail = FriVail::new(1, 3, 2, packed_mle_values.total_n_vars, 2);

    let (fri_params, ntt) = fri_vail
        .initialize_fri_context(packed_mle_values.total_n_vars)
        .expect("Failed to initialize FRI context");

    let commit_result = fri_vail.commit(&packed_mle_values, fri_params.clone(), &ntt);
    assert!(commit_result.is_ok());

    let commit_output = commit_result.unwrap();
    assert!(!commit_output.commitment.is_empty());
    assert!(commit_output.codeword.len() > 0);

    let commitment_bytes: [u8; 32] = commit_output
        .commitment
        .to_vec()
        .try_into()
        .expect("We know commitment size is 32 bytes");
    for i in 0..std::cmp::min(5, commit_output.codeword.len()) {
        let value = commit_output.codeword[i];

        let inclusion_proof_result = fri_vail.inclusion_proof(&commit_output.committed, i);
        assert!(inclusion_proof_result.is_ok());

        let inclusion_proof = inclusion_proof_result.unwrap();

        let verify_result = fri_vail.verify_inclusion_proof(
            &inclusion_proof,
            &[value],
            i,
            &fri_params,
            commitment_bytes,
        );
        assert!(
            verify_result.is_ok(),
            "Inclusion proof verification failed for index {}",
            i
        );
    }
}

#[test]
fn test_data_availability_sampling() {
    let test_data = create_test_data(512);
    let packed_mle_values = Utils::new()
        .bytes_to_packed_mle(&test_data)
        .expect("Failed to create packed MLE");

    let fri_vail = FriVail::new(1, 3, 2, packed_mle_values.total_n_vars, 2);

    let (fri_params, ntt) = fri_vail
        .initialize_fri_context(packed_mle_values.total_n_vars)
        .expect("Failed to initialize FRI context");

    let commit_output = fri_vail
        .commit(&packed_mle_values, fri_params.clone(), &ntt)
        .expect("Failed to commit");

    let total_samples = commit_output.codeword.len();
    let sample_size = std::cmp::min(5, total_samples / 4);
    let indices = sample(&mut StdRng::from_seed([0; 32]), total_samples, sample_size).into_vec();
    let commitment_bytes: [u8; 32] = commit_output
        .commitment
        .to_vec()
        .try_into()
        .expect("We know commitment size is 32 bytes");

    let mut successful_samples = 0;
    let mut failed_samples = Vec::new();

    for &sample_index in indices.iter() {
        match fri_vail.inclusion_proof(&commit_output.committed, sample_index) {
            Ok(inclusion_proof) => {
                let value = commit_output.codeword[sample_index];
                match fri_vail.verify_inclusion_proof(
                    &inclusion_proof,
                    &[value],
                    sample_index,
                    &fri_params,
                    commitment_bytes,
                ) {
                    Ok(_) => {
                        successful_samples += 1;
                    }
                    Err(e) => {
                        failed_samples.push((sample_index, format!("Verification failed: {}", e)));
                    }
                }
            }
            Err(e) => {
                failed_samples.push((
                    sample_index,
                    format!("Inclusion proof generation failed: {}", e),
                ));
            }
        }
    }

    assert_eq!(failed_samples.len(), 0, "Some samples failed verification");
    assert_eq!(successful_samples, sample_size, "Not all samples were verified");
}

fn committed_1024() -> (FriVail, frivail::code::FriParams, frivail::frivail::CommitOutput) {
    let mle = Utils::new().bytes_to_packed_mle(&create_test_data(1024)).unwrap();
    let fv = FriVail::new(1, 3, 2, mle.total_n_vars, 2);
    let (p, ntt) = fv.initialize_fri_context(mle.total_n_vars).unwrap();
    let out = fv.commit(&mle, p, &ntt).unwrap();
    (fv, p, out)
}

#[test]
fn commitment_is_a_root_over_a_power_of_two_codeword() {
    let (_, _, out) = committed_1024();
    assert_eq!(out.commitment.len(), 32);
    assert_eq!(out.codeword.len(), 128);
    assert!(out.codeword.len().is_power_of_two());
    assert_eq!(out.committed.depth(), 7);
    assert_eq!(out.committed.root(), out.commitment);
}

#[test]
fn commitment_differs_for_different_data() {
    let (_, _, a) = committed_1024();
    let mut data = create_test_data(1024);
    data[100] ^= 1;
    let mle = Utils::new().bytes_to_packed_mle(&data).unwrap();
    let fv = FriVail::new(1, 3, 2, mle.total_n_vars, 2);
    let (p, ntt) = fv.initialize_fri_context(mle.total_n_vars).unwrap();
    let b = fv.commit(&mle, p, &ntt).unwrap();
    assert_ne!(a.commitment, b.commitment);
}

#[test]
fn commit_rejects_a_message_of_the_wrong_size() {
    let small = Utils::new().bytes_to_packed_mle(&create_test_data(64)).unwrap();
    let fv = FriVail::new(1, 3, 2, 6, 2);
    let (p, ntt) = fv.initialize_fri_context(6).unwrap();
    assert!(fv.commit(&small, p, &ntt).is_err());
}

#[test]
fn flipped_value_fails_inclusion_check() {
    let (fv, p, out) = committed_1024();
    for i in [0usize, 3, 64, 127] {
        let proof = fv.inclusion_proof(&out.committed, i).unwrap();
        assert_eq!(proof.len(), 7);
        let value = out.codeword[i];
        assert!(fv.verify_inclusion_proof(&proof, &[value], i, &p, out.commitment).is_ok());
        let mut bytes = value.to_le_bytes();
        bytes[5] ^= 0x10;
        let flipped = u128::from_le_bytes(bytes);
        assert!(fv.verify_inclusion_proof(&proof, &[flipped], i, &p, out.commitment).is_err());
    }
}

#[test]
fn inclusion_check_rejects_wrong_index_path_or_root() {
    let (fv, p, out) = committed_1024();
    let proof = fv.inclusion_proof(&out.committed, 10).unwrap();
    let value = out.codeword[10];
    assert!(fv.verify_inclusion_proof(&proof, &[value], 11, &p, out.commitment).is_err());
    assert!(fv.verify_inclusion_proof(&proof, &[value], 128, &p, out.commitment).is_err());
    let mut bad_path = proof.clone();
    bad_path[3][0] ^= 1;
    assert!(fv.verify_inclusion_proof(&bad_path, &[value], 10, &p, out.commitment).is_err());
    assert!(fv.verify_inclusion_proof(&proof[..6], &[value], 10, &p, out.commitment).is_err());
    let mut bad_root = out.commitment;
    bad_root[31] ^= 0x80;
    assert!(fv.verify_inclusion_proof(&proof, &[value], 10, &p, bad_root).is_err());
    assert!(fv.verify_inclusion_proof(&proof, &[value, value], 10, &p, out.commitment).is_err());
    assert!(fv.verify_inclusion_proof(&proof, &[], 10, &p, out.commitment).is_err());
}

#[test]
fn inclusion_proof_rejects_an_index_past_the_end() {
    let (fv, _, out) = committed_1024();
    assert!(fv.inclusion_proof(&out.committed, 128).is_err());
    assert!(fv.inclusion_proof(&out.committed, 127).is_ok());
}

#[test]
fn leaf_digest_is_sha256_of_the_little_endian_value() {
    // a tree of depth zero is a single leaf: its root is the leaf digest
    let mle = Utils::new().bytes_to_packed_mle(&[]).unwrap();
    let fv = FriVail::new(0, 3, 2, 0, 0);
    let (p, ntt) = fv.initialize_fri_context(0).unwrap();
    let out = fv.commit(&mle, p, &ntt).unwrap();
    assert_eq!(out.codeword, vec![0u128]);
    // SHA-256 of sixteen zero bytes
    let expected: [u8; 32] = [
        0x37, 0x47, 0x08, 0xff, 0xf7, 0x71, 0x9d, 0xd5, 0x97, 0x9e, 0xc8, 0x75, 0xd5, 0x6c, 0xd2,
        0x28, 0x6f, 0x6d, 0x3c, 0xf7, 0xec, 0x31, 0x7a, 0x3b, 0x25, 0x63, 0x2a, 0xab, 0x28, 0xec,
        0x37, 0xbb,
    ];
    assert_eq!(out.commitment, expected);
}
