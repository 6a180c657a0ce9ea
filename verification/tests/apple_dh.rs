use vnc_client::apple_dh::{
    build_credential_blob, encrypt_aes128_ecb, parse_dh_header, read_dh_result, AppleDhAuth,
    DhParams,
};
use vnc_client::VncError;

#[test]
fn credential_blob_has_null_terminators() {
    let blob = build_credential_blob("admin", "secret", &[0x55; 128]);
    assert_eq!(blob.len(), 128);
    // Username and password are null-terminated within their 64-byte halves.
    assert_eq!(blob[5], 0);
    assert_eq!(blob[64 + 6], 0);
}

#[test]
fn credential_blob_truncates_long_credentials() {
    let long = "a".repeat(100);
    let blob = build_credential_blob(&long, &long, &[0x55; 128]);
    assert_eq!(blob[63], 0);
    assert_eq!(blob[127], 0);
}

#[test]
fn aes128_ecb_roundtrip() {
    let key = [0u8; 16];
    let data = encrypt_aes128_ecb(&[0xabu8; 128], &key);
    // AES-ECB with a constant key and constant plaintext must be deterministic.
    let data2 = encrypt_aes128_ecb(&[0xabu8; 128], &key);
    assert_eq!(data, data2);
    assert_ne!(data, vec![0xabu8; 128]);
}

#[test]
fn credential_blob_keeps_text_and_noise() {
    let blob = build_credential_blob("ab", "c", &[0x55; 128]);
    assert_eq!(&blob[0..4], &[b'a', b'b', 0, 0x55]);
    assert_eq!(&blob[64..67], &[b'c', 0, 0x55]);
}

#[test]
fn dh_header_gives_generator_and_size() {
    assert_eq!(parse_dh_header(&[0, 2, 0, 16]), Ok((2, 16)));
    assert!(matches!(parse_dh_header(&[0, 2, 0, 0]), Err(VncError::AuthFailed(_))));
}

#[test]
fn dh_result_zero_is_success() {
    assert_eq!(read_dh_result(0), Ok(()));
    assert!(matches!(read_dh_result(1), Err(VncError::AuthFailed(_))));
}

#[test]
fn both_sides_agree_on_the_secret() {
    // p = 23, g = 5: the client's secret 4 gives 5^4 mod 23 = 4.
    let auth = AppleDhAuth::new("u".to_string(), "p".to_string());
    let params = DhParams { generator: 5, prime: vec![23], server_public: vec![8] };
    let reply = auth.respond(&params, &[4], &[0; 128]);
    assert_eq!(reply.message.len(), 128 + 1);
    assert_eq!(reply.message[128], 4);
    // The key is MD5 of the shared secret 8^4 mod 23 = 2.
    let key = reply.key.clone();
    assert_eq!(key.len(), 16);
    assert_eq!(key[..4], [0x9e, 0x68, 0x8c, 0x58]);
}

#[test]
fn each_exchange_draws_anew() {
    let auth = AppleDhAuth::new("user".to_string(), "pass".to_string());
    let params = DhParams { generator: 2, prime: vec![0xff; 32], server_public: vec![3; 32] };
    let (first, second) = (auth.authenticate(&params), auth.authenticate(&params));
    assert_eq!(first.message.len(), 128 + 32);
    assert_ne!(first.message[128..], second.message[128..]);
    assert_ne!(first.key, second.key);
}
