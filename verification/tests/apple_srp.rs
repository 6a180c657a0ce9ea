use num_bigint::BigUint;
use rsa::pkcs8::EncodePublicKey;
use vnc_client::apple_srp::{
    build_modulus_request, build_rsa1_request, build_srp_proof, check_challenge_len,
    check_result_len, check_rsa1_len, find_rsa1_key, frame_modulus_packet, read_srp_result,
    srp_proof_message, wrap_key, AppleSrpAuth, SrpChallenge, SrpProof, SRP_HASH_LEN, SRP_MODULUS_LEN,
};
use vnc_client::bignum::{exceeds_one, pad_bigint};
use vnc_client::VncError;

#[test]
fn pad_bigint_test() {
    let v = [1u8];
    let padded = pad_bigint(&v, 512);
    assert_eq!(padded.len(), 512);
    assert_eq!(padded[511], 1);
    assert!(padded[..511].iter().all(|&b| b == 0));
}

#[test]
fn derive_x_matches_known_pattern() {
    // Sanity test: x derivation does not panic and produces a non-zero value.
    let auth = AppleSrpAuth::new("user".to_string(), "pass".to_string());
    let salt = [1u8; 32];
    let x = auth.derive_x(&salt, 1000, "pass");
    assert!(BigUint::from_bytes_be(&x) > BigUint::from(0u32));
}

/// Build a well-formed SRP challenge buffer (s2c1) for parser tests.
fn build_challenge() -> Vec<u8> {
    let mut buf = vec![0u8; 12]; // header
    buf.push(0); // DER zero marker
    let mut modulus = vec![0u8; SRP_MODULUS_LEN];
    modulus[SRP_MODULUS_LEN - 1] = 0xff; // N != 0
    buf.extend_from_slice(&modulus);
    buf.extend_from_slice(&1u16.to_be_bytes()); // g_len
    buf.push(5); // g = 5
    buf.push(4); // salt_len
    buf.extend_from_slice(&[1, 2, 3, 4]); // salt
    buf.extend_from_slice(&2u16.to_be_bytes()); // b_len
    buf.extend_from_slice(&[0xaa, 0xbb]); // B
    buf.extend_from_slice(&1000u64.to_be_bytes()); // iterations
    buf.extend_from_slice(&2u16.to_be_bytes()); // cap_len
    buf.extend_from_slice(b"GD"); // cap
    buf
}

#[test]
fn parse_challenge_valid() {
    let auth = AppleSrpAuth::new("user".to_string(), "pass".to_string());
    let challenge = auth
        .parse_apple_srp_challenge(&build_challenge())
        .expect("well-formed challenge parses");
    assert_eq!(BigUint::from_bytes_be(&challenge.g), BigUint::from(5u32));
    assert_eq!(challenge.salt, vec![1, 2, 3, 4]);
    assert_eq!(challenge.iterations, 1000);
    assert_eq!(challenge.cap, b"GD");
}

#[test]
fn parse_challenge_malformed_lengths_error_not_panic() {
    let auth = AppleSrpAuth::new("user".to_string(), "pass".to_string());
    let valid = build_challenge();
    let header_end = 12 + 1 + SRP_MODULUS_LEN; // offset of g_len

    // g_len larger than the remaining buffer.
    let mut bad = valid.clone();
    bad[header_end] = 0xff;
    bad[header_end + 1] = 0xff;
    assert!(auth.parse_apple_srp_challenge(&bad).is_err());

    // salt_len larger than the remaining buffer.
    let mut bad = valid.clone();
    bad[header_end + 3] = 200; // salt_len byte (after g_len + 1-byte g)
    assert!(auth.parse_apple_srp_challenge(&bad).is_err());

    // b_len larger than the remaining buffer.
    let mut bad = valid.clone();
    let b_len_off = header_end + 3 + 1 + 4; // after g field, salt_len, salt
    bad[b_len_off] = 0xff;
    bad[b_len_off + 1] = 0xff;
    assert!(auth.parse_apple_srp_challenge(&bad).is_err());

    // cap_len larger than the remaining buffer.
    let mut bad = valid.clone();
    let n = bad.len();
    bad[n - 4] = 0xff; // cap_len high byte (last 4 bytes: cap_len + "GD")
    bad[n - 3] = 0xff;
    assert!(auth.parse_apple_srp_challenge(&bad).is_err());

    // Buffer truncated in the middle of the iterations field.
    let truncated = &valid[..valid.len() - 10];
    assert!(auth.parse_apple_srp_challenge(truncated).is_err());
}

fn dummy_challenge(n: u8, cap_len: usize) -> SrpChallenge {
    SrpChallenge {
        n: vec![n],
        nb: vec![0u8; SRP_MODULUS_LEN],
        g: vec![5],
        salt: vec![1, 2, 3, 4],
        b: vec![7],
        bb: vec![0, 7],
        iterations: 1000,
        cap: vec![0u8; cap_len],
    }
}

fn dummy_proof() -> SrpProof {
    SrpProof {
        ab: vec![0u8; SRP_MODULUS_LEN],
        m1: vec![0u8; SRP_HASH_LEN],
        k: vec![0u8; SRP_HASH_LEN],
    }
}

#[test]
fn solve_srp_rejects_invalid_modulus() {
    let auth = AppleSrpAuth::new("user".to_string(), "pass".to_string());
    // N = 0 and N = 1 would cause a division-by-zero panic.
    assert!(auth.solve_srp(&dummy_challenge(0, 2)).is_err());
    assert!(auth.solve_srp(&dummy_challenge(1, 2)).is_err());
}

#[test]
fn send_srp_proof_rejects_oversized_cap() {
    // cap_len larger than 464 makes the payload exceed the 1076-byte
    // packet; the zero-padding subtraction would underflow.
    let challenge = dummy_challenge(3, 600);
    let proof = dummy_proof();
    assert!(build_srp_proof(&challenge, &proof, &[0; 16]).is_err());
}

#[test]
fn proof_packet_is_padded_to_its_size() {
    let packet = build_srp_proof(&dummy_challenge(3, 2), &dummy_proof(), &[7; 16]).unwrap();
    assert_eq!(packet.len(), 4 + 1076 - 0);
    assert_eq!(packet[..4], [0, 0, 4, 0x34]);
}

#[test]
fn challenge_is_solved() {
    let auth = AppleSrpAuth::new("user".to_string(), "pass".to_string());
    let challenge = auth.parse_apple_srp_challenge(&build_challenge()).unwrap();
    let one = auth.solve_srp_with(&challenge, &[1; 64]).unwrap();
    let two = auth.solve_srp_with(&challenge, &[1; 64]).unwrap();
    assert_eq!(one.m1, two.m1);
    assert_eq!(one.ab.len(), SRP_MODULUS_LEN);
    assert_eq!(one.m1.len(), SRP_HASH_LEN);
    assert_eq!(wrap_key(&one).len(), 16);
}

#[test]
fn wrap_key_is_half_a_digest() {
    // SHA-256 of sixty-four zero bytes starts with these four.
    assert_eq!(wrap_key(&dummy_proof())[..4], [0xf5, 0xa5, 0xfd, 0x42]);
}

#[test]
fn length_limits_hold() {
    assert!(check_rsa1_len(u32::MAX).is_err());
    assert_eq!(check_rsa1_len(10), Ok(10));
    assert!(check_challenge_len(999).is_err());
    assert!(check_challenge_len(u32::MAX).is_err());
    assert_eq!(check_challenge_len(1000), Ok(1000));
    assert!(check_result_len(u32::MAX).is_err());
    assert_eq!(read_srp_result(0), Ok(()));
    assert!(matches!(read_srp_result(3), Err(VncError::AuthFailed(_))));
}

#[test]
fn first_packets_have_their_shape() {
    assert_eq!(build_rsa1_request()[0], 0x21);
    let request = build_modulus_request("ab");
    assert_eq!(request[..4], [0, 0, 0, 9]);
    assert!(frame_modulus_packet(&[0; 255]).is_err());
    assert!(frame_modulus_packet(&[0; 256]).is_ok());
    assert!(find_rsa1_key(&[0; 3]).is_err());
    let auth = AppleSrpAuth::new("user".to_string(), "pass".to_string());
    assert!(auth.srp_modulus_message(&[0; 3]).is_err());
}

#[test]
fn numbers_above_one_are_told_apart() {
    assert!(!exceeds_one(&[0, 0, 1]));
    assert!(exceeds_one(&[0, 2]));
    assert!(exceeds_one(&[1, 0]));
    assert!(!exceeds_one(&[]));
}

/// A response with a key whose modulus has `len` bytes, all ones.
fn rsa1_response(len: usize) -> Vec<u8> {
    let n = rsa::BigUint::from_bytes_be(&vec![0xff; len]);
    let key = rsa::RsaPublicKey::new(n, rsa::BigUint::from(65537u32)).unwrap();
    let der = key.to_public_key_der().unwrap().as_bytes().to_vec();
    let mut pkt = vec![0, 1];
    pkt.extend((der.len() as u32).to_be_bytes());
    pkt.extend(der);
    pkt.extend([0, 0]);
    pkt
}

#[test]
fn user_name_is_encrypted_for_a_key_of_256_bytes() {
    let auth = AppleSrpAuth::new("user".to_string(), "pass".to_string());
    let first = auth.srp_modulus_message(&rsa1_response(256)).unwrap();
    let second = auth.srp_modulus_message(&rsa1_response(256)).unwrap();
    assert_eq!(first.len(), 4 + 650);
    assert_eq!(first[..4], 650u32.to_be_bytes());
    assert_eq!(first[14 + 256..], [0; 384]);
    // The padding is drawn anew each time.
    assert_ne!(first[14..270], second[14..270]);
}

#[test]
fn keys_of_other_sizes_are_refused() {
    let auth = AppleSrpAuth::new("user".to_string(), "pass".to_string());
    assert_eq!(
        auth.srp_modulus_message(&rsa1_response(128)),
        Err(VncError::AuthFailed("expected 256B RSA block, got 128".to_string()))
    );
    let long = AppleSrpAuth::new("u".repeat(300), "pass".to_string());
    assert_eq!(
        long.srp_modulus_message(&rsa1_response(256)),
        Err(VncError::AuthFailed("RSA encryption failed: message too long".to_string()))
    );
    let mut damaged = rsa1_response(256);
    damaged[6] = 0;
    assert!(matches!(auth.srp_modulus_message(&damaged), Err(VncError::Protocol(_))));
}

#[test]
fn proof_messages_differ_in_their_random_bytes() {
    let (challenge, proof) = (dummy_challenge(3, 2), dummy_proof());
    let first = srp_proof_message(&challenge, &proof).unwrap();
    let second = srp_proof_message(&challenge, &proof).unwrap();
    let fixed = build_srp_proof(&challenge, &proof, &[7; 16]).unwrap();
    assert_eq!(first.len(), fixed.len());
    assert_ne!(first, second);
    let different = first.iter().zip(&fixed).filter(|(a, b)| a != b).count();
    assert!(different <= 16);
}

#[test]
fn each_answer_has_a_secret_of_its_own() {
    let auth = AppleSrpAuth::new("user".to_string(), "pass".to_string());
    let mut challenge = dummy_challenge(0, 2);
    challenge.n = vec![0xff; 64];
    let first = auth.solve_srp(&challenge).unwrap();
    let second = auth.solve_srp(&challenge).unwrap();
    assert_ne!(first.ab, second.ab);
    assert_ne!(first.k, second.k);
}
