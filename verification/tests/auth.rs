use vnc_client::auth::{
    encrypt_challenge, read_vnc_result, AppleDhAuthHandler, AppleSrpAuthHandler, AuthHandler,
    NoAuthHandler, PasswordAuthHandler,
};
use vnc_client::sasl_auth::{
    answer_mechanisms, find_mechanism, frame, needs_mechanism, read_mechanisms, read_reply, select_mechanism,
    SaslAuth, SaslMechanism,
};
use vnc_client::vencrypt::{check_version, SubTypes, VencryptHandler, VencryptResult};
use vnc_client::VncError;

#[test]
fn challenge_is_enciphered_under_the_reversed_password() {
    // The key of "password" with the bits of each byte reversed, and two
    // blocks of zeros: both halves of the answer are the same.
    let answer = encrypt_challenge(&[0; 16], b"password");
    assert_eq!(answer[..8], answer[8..]);
    assert_ne!(answer, vec![0; 16]);
    // Bytes behind the eighth do not count.
    assert_eq!(encrypt_challenge(&[0; 16], b"password1"), answer);
    let handler = PasswordAuthHandler::new("password".to_string());
    assert_eq!(handler.authenticate_vnc(&[0; 16]), answer);
}

#[test]
fn empty_password_gives_the_known_des_block() {
    // DES of the zero block under the zero key.
    let answer = encrypt_challenge(&[0; 16], b"");
    assert_eq!(answer[..8], [0x8c, 0xa6, 0x4d, 0xe9, 0xc1, 0xb1, 0x23, 0xa7]);
}

#[test]
fn vnc_result_zero_is_success() {
    assert_eq!(read_vnc_result(0), Ok(()));
    assert_eq!(
        read_vnc_result(1),
        Err(VncError::AuthFailed("Invalid password".to_string()))
    );
}

#[test]
fn handlers_select_their_types() {
    assert_eq!(NoAuthHandler.select_security_type(&[2, 1]), Ok(1));
    let mut password = PasswordAuthHandler::new("p".to_string());
    assert_eq!(password.select_security_type(&[1, 2]), Ok(2));
    assert_eq!(password.select_security_type(&[1]), Ok(1));
    let mut srp = AppleSrpAuthHandler::new("u".to_string(), "p".to_string());
    assert_eq!(srp.select_security_type(&[30, 33]), Ok(33));
    let mut dh = AppleDhAuthHandler::new("u".to_string(), "p".to_string());
    assert_eq!(
        dh.select_security_type(&[2, 33]),
        Err(VncError::AuthFailed(
            "No supported auth types (server offered [2, 33])".to_string()
        ))
    );
    assert_eq!(dh.check_type(30), Ok(()));
    assert!(dh.check_vnc().is_err());
    assert_eq!(password.check_vnc(), Ok(()));
    assert!(password.check_type(30).is_err());
    assert_eq!(dh.session_key(), None);
}

fn numbers() -> SubTypes {
    SubTypes {
        tls: 10,
        rsa_aes256: 11,
        rsa_aes: 12,
        x509: 13,
        sasl: 14,
        apple_dh: 15,
        plain: 16,
        vnc_auth: 17,
    }
}

#[test]
fn strongest_sub_type_is_selected() {
    let handler = VencryptHandler { numbers: numbers() };
    let mut input = vec![2];
    input.extend(17u32.to_be_bytes());
    input.extend(12u32.to_be_bytes());
    let (_, kind, used) = handler.negotiate(&input).unwrap().unwrap();
    assert_eq!(kind, VencryptResult::RsaAes);
    assert_eq!(used, input.len());
    assert!(handler.negotiate(&input[..3]).unwrap().is_none());
    let mut none = vec![1];
    none.extend(99u32.to_be_bytes());
    assert!(handler.negotiate(&none).is_err());
    assert!(check_version(0, 2).is_ok());
    assert!(check_version(0, 1).is_err());
}

#[test]
fn sasl_names_and_replies_are_read() {
    let mut input = 1u32.to_be_bytes().to_vec();
    input.extend(5u32.to_be_bytes());
    input.extend(b"PLAIN");
    let (names, used) = read_mechanisms(&input).unwrap();
    assert_eq!(names, vec!["PLAIN"]);
    assert_eq!(used, input.len());
    assert!(read_mechanisms(&input[..6]).is_none());
    assert_eq!(select_mechanism(&names), Ok("PLAIN".to_string()));
    assert_eq!(find_mechanism("PLAIN"), Ok(SaslMechanism::Plain));
    assert!(find_mechanism("NOPE").is_err());
    assert_eq!(frame(b"ab"), vec![0, 0, 0, 2, b'a', b'b']);
    let mut reply = 1u32.to_be_bytes().to_vec();
    reply.extend(2u32.to_be_bytes());
    reply.extend(b"xy");
    assert_eq!(read_reply(&reply), Some((1, b"xy".to_vec(), 10)));
    assert!(needs_mechanism(1, b"xy"));
}

#[test]
fn plain_payload_has_its_zero_bytes() {
    let auth = SaslAuth::new("u", "p");
    let (mut exchange, first) = auth.begin("PLAIN").unwrap();
    assert_eq!(first, vec![0, 0, 0, 4, 0, b'u', 0, b'p']);
    assert_eq!(auth.reply(&mut exchange, &sasl_reply(1, b"?")), Ok(Some((Some(vec![0; 4]), 9))));
    assert_eq!(auth.reply(&mut exchange, &sasl_reply(0, b"")), Ok(Some((None, 8))));
    assert_eq!(auth.reply(&mut exchange, &[0, 0, 0]), Ok(None));
}

/// A reply of a server.
fn sasl_reply(status: u32, data: &[u8]) -> Vec<u8> {
    let mut reply = status.to_be_bytes().to_vec();
    reply.extend(frame(data));
    reply
}

fn base64(data: &[u8]) -> String {
    let digits = b"ABCDEFGHIJKLMNOPQRSTUVWXYZabcdefghijklmnopqrstuvwxyz0123456789+/";
    let mut out = String::new();
    for chunk in data.chunks(3) {
        let mut group = [0u8; 3];
        group[..chunk.len()].copy_from_slice(chunk);
        let n = u32::from_be_bytes([0, group[0], group[1], group[2]]);
        for k in 0..4 {
            if k <= chunk.len() {
                out.push(digits[(n >> (18 - 6 * k)) as usize & 63] as char);
            } else {
                out.push('=');
            }
        }
    }
    out
}

fn hmac_sha1(key: &[u8], data: &[u8]) -> Vec<u8> {
    let mut mac = <hmac::Hmac<sha1::Sha1> as hmac::Mac>::new_from_slice(key).unwrap();
    hmac::Mac::update(&mut mac, data);
    hmac::Mac::finalize(mac).into_bytes().to_vec()
}

#[test]
fn scram_answers_the_challenge_and_checks_the_server() {
    let auth = SaslAuth::new("user", "pencil");
    let (mut exchange, first) = auth.begin("SCRAM-SHA-1").unwrap();
    let first = String::from_utf8(first[4..].to_vec()).unwrap();
    let nonce = first.strip_prefix("y,,n=user,r=").unwrap();
    assert_eq!(nonce.len(), 44);

    let salt = [7u8; 9];
    let challenge = format!("r={nonce}srv,s={},i=64", base64(&salt));
    let bare = format!("c=eSws,r={nonce}srv");
    let mut salted = [0u8; 20];
    pbkdf2::pbkdf2_hmac::<sha1::Sha1>(b"pencil", &salt, 64, &mut salted);
    let client_key = hmac_sha1(&salted, b"Client Key");
    let stored = <sha1::Sha1 as sha1::Digest>::digest(&client_key);
    let message = format!("{},{challenge},{bare}", &first[3..]);
    let signature = hmac_sha1(&stored, message.as_bytes());
    let proof: Vec<u8> = client_key.iter().zip(&signature).map(|(a, b)| a ^ b).collect();
    let expected = frame(format!("{bare},p={}", base64(&proof)).as_bytes());

    let input = sasl_reply(1, challenge.as_bytes());
    assert_eq!(auth.reply(&mut exchange, &input[..input.len() - 1]), Ok(None));
    let used = input.len();
    assert_eq!(auth.reply(&mut exchange, &input), Ok(Some((Some(expected), used))));
    // A second challenge comes too late.
    assert!(matches!(auth.reply(&mut exchange, &input), Err(VncError::AuthFailed(_))));
    assert_eq!(
        auth.reply(&mut exchange, &sasl_reply(0, b"v=AAAA")),
        Err(VncError::AuthFailed(
            "SASL success verify: invalid signature in success response".to_string()
        ))
    );
    let server = hmac_sha1(&hmac_sha1(&salted, b"Server Key"), message.as_bytes());
    let end = sasl_reply(0, format!("v={}", base64(&server)).as_bytes());
    assert_eq!(auth.reply(&mut exchange, &end), Ok(Some((None, end.len()))));
}

#[test]
fn sasl_errors_have_their_texts() {
    let auth = SaslAuth::new("user", "pencil");
    let (mut exchange, first) = auth.begin("SCRAM-SHA-256").unwrap();
    assert_eq!(first[4..16], *b"y,,n=user,r=");
    assert_eq!(
        auth.reply(&mut exchange, &sasl_reply(1, b"x")),
        Err(VncError::AuthFailed("SASL response: no server nonce".to_string()))
    );
    assert_eq!(
        auth.reply(&mut exchange, &sasl_reply(2, b"no")),
        Err(VncError::AuthFailed("SASL authentication failed: no".to_string()))
    );
    assert_eq!(
        auth.reply(&mut exchange, &sasl_reply(5, b"")),
        Err(VncError::Protocol("Unknown SASL status: 5".to_string()))
    );
    assert!(matches!(auth.begin("NOPE"), Err(VncError::AuthFailed(_))));
}

#[test]
fn list_of_mechanisms_is_answered() {
    let mut input = 2u32.to_be_bytes().to_vec();
    input.extend(frame(b"PLAIN"));
    input.extend(frame(b"SCRAM-SHA-1"));
    let used = input.len();
    assert_eq!(
        answer_mechanisms(&input),
        Ok(Some(("SCRAM-SHA-1".to_string(), frame(b"SCRAM-SHA-1"), used)))
    );
    assert_eq!(answer_mechanisms(&input[..7]), Ok(None));
    assert!(answer_mechanisms(&[0; 4]).is_err());
}
