//! The wire codec and the virtual agent, exercised end to end with a
//! real Ed25519 key.
use zync_core::agent::agent_comment;
use zync_core::agent::agent_respond;
use zync_core::agent::ed25519_marker;
use zync_core::agent::failure_response;
use zync_core::agent::find_key;
use zync_core::agent::identities_answer;
use zync_core::agent::key_is_ed25519;
use zync_core::agent::parse_agent_request;
use zync_core::agent::sign_response;
use zync_core::agent::AgentAction;
use zync_core::agent::AgentKey;
use zync_core::agent::AgentRequest;
use zync_core::wire::append_be32;
use zync_core::wire::append_lp;
use zync_core::wire::read_be32;
use zync_core::wire::read_lp;
use russh_keys::signature::Signer;
use russh_keys::signature::Verifier;

fn ed25519_test_key() -> russh_keys::ssh_key::PrivateKey {
    let kp = russh_keys::ssh_key::private::Ed25519Keypair::from_seed(&[7u8; 32]);
    russh_keys::ssh_key::PrivateKey::new(
        russh_keys::ssh_key::private::KeypairData::Ed25519(kp),
        "test",
    )
    .unwrap()
}

#[test]
fn be32_encodes_big_endian() {
    let mut buf: Vec<u8> = Vec::new();
    append_be32(&mut buf, 0x01020304);
    assert_eq!(buf, vec![1, 2, 3, 4]);
    let (v, next) = read_be32(&buf, 0).unwrap();
    assert_eq!(v, 0x01020304);
    assert_eq!(next, 4);
    assert!(read_be32(&buf, 1).is_none());
}

#[test]
fn length_prefixed_round_trip() {
    let mut buf: Vec<u8> = Vec::new();
    append_lp(&mut buf, b"abc");
    assert_eq!(buf, vec![0, 0, 0, 3, b'a', b'b', b'c']);
    buf.push(0xff);
    let (payload, next) = read_lp(&buf, 0).unwrap();
    assert_eq!(payload, b"abc".to_vec());
    assert_eq!(next, 7);
    // A truncated payload is rejected.
    let short = vec![0, 0, 0, 9, 1, 2];
    assert!(read_lp(&short, 0).is_none());
}

#[test]
fn marker_and_comment_bytes() {
    assert_eq!(ed25519_marker(), b"ssh-ed25519".to_vec());
    assert_eq!(agent_comment(), b"virtual-agent".to_vec());
    assert_eq!(failure_response(), vec![5u8]);
}

#[test]
fn parse_identities_and_unknown() {
    assert!(matches!(parse_agent_request(&[11]), AgentRequest::RequestIdentities));
    assert!(matches!(parse_agent_request(&[]), AgentRequest::Unsupported));
    assert!(matches!(parse_agent_request(&[99, 1, 2]), AgentRequest::Unsupported));
    // A type-13 message with truncated fields is unsupported.
    assert!(matches!(parse_agent_request(&[13, 0, 0, 0, 9]), AgentRequest::Unsupported));
}

#[test]
fn parse_sign_request_fields() {
    let mut msg = vec![13u8];
    append_lp(&mut msg, b"blob-bytes");
    append_lp(&mut msg, b"data-bytes");
    append_be32(&mut msg, 7);
    match parse_agent_request(&msg) {
        AgentRequest::SignRequest { key_blob, data, flags } => {
            assert_eq!(key_blob, b"blob-bytes".to_vec());
            assert_eq!(data, b"data-bytes".to_vec());
            assert_eq!(flags, 7);
        }
        _ => panic!("expected a sign request"),
    }
}

/// Only keys whose blob carries the Ed25519 marker are advertised.
#[test]
fn identities_answer_filters_to_ed25519() {
    let key = ed25519_test_key();
    let blob = key.public_key().to_bytes().unwrap();
    let keys = vec![
        AgentKey { blob: b"ssh-rsa-something".to_vec() },
        AgentKey { blob: blob.clone() },
        AgentKey { blob: b"ecdsa-sha2-nistp256".to_vec() },
    ];
    assert!(!key_is_ed25519(&keys[0]));
    assert!(key_is_ed25519(&keys[1]));
    let answer = identities_answer(&keys);
    assert_eq!(answer[0], 12);
    let (count, mut pos) = read_be32(&answer, 1).unwrap();
    assert_eq!(count, 1);
    let (adv_blob, next) = read_lp(&answer, pos).unwrap();
    assert_eq!(adv_blob, blob);
    pos = next;
    let (comment, end) = read_lp(&answer, pos).unwrap();
    assert_eq!(comment, b"virtual-agent".to_vec());
    assert_eq!(end, answer.len());
}

#[test]
fn find_key_first_match() {
    let keys = vec![
        AgentKey { blob: vec![1, 2] },
        AgentKey { blob: vec![3, 4] },
        AgentKey { blob: vec![3, 4] },
    ];
    assert_eq!(find_key(&keys, &[3, 4]), Some(1));
    assert_eq!(find_key(&keys, &[9]), None);
}

/// Load an Ed25519 key; a synthetic REQUEST_IDENTITIES returns one
/// identity whose blob equals the key's public blob; a SIGN_REQUEST
/// for that blob over a payload returns a signature that verifies
/// under the key.
#[test]
fn agent_signs_with_advertised_key() {
    let key = ed25519_test_key();
    let blob = key.public_key().to_bytes().unwrap();
    let keys = vec![AgentKey { blob: blob.clone() }];

    // REQUEST_IDENTITIES advertises exactly this key.
    match agent_respond(&keys, &[11]) {
        AgentAction::Reply(answer) => {
            assert_eq!(answer[0], 12);
            let (count, pos) = read_be32(&answer, 1).unwrap();
            assert_eq!(count, 1);
            let (adv, _) = read_lp(&answer, pos).unwrap();
            assert_eq!(adv, blob);
        }
        _ => panic!("identities request must be answered directly"),
    }

    // SIGN_REQUEST with the advertised blob hands the data out for
    // signing with that key.
    let payload = b"payload P";
    let mut msg = vec![13u8];
    append_lp(&mut msg, &blob);
    append_lp(&mut msg, payload);
    append_be32(&mut msg, 0);
    match agent_respond(&keys, &msg) {
        AgentAction::Sign { key_index, data, flags } => {
            assert_eq!(key_index, 0);
            assert_eq!(data, payload.to_vec());
            assert_eq!(flags, 0);
            let sig: russh_keys::ssh_key::Signature = key.try_sign(&data).unwrap();
            Verifier::verify(key.public_key(), &data, &sig).unwrap();
            let resp = sign_response(sig.algorithm().as_str().as_bytes(), sig.as_bytes());
            assert_eq!(resp[0], 14);
            let (outer, end) = read_lp(&resp, 1).unwrap();
            assert_eq!(end, resp.len());
            let (alg, next) = read_lp(&outer, 0).unwrap();
            assert_eq!(alg, b"ssh-ed25519".to_vec());
            let (sig_bytes, inner_end) = read_lp(&outer, next).unwrap();
            assert_eq!(sig_bytes, sig.as_bytes().to_vec());
            assert_eq!(inner_end, outer.len());
        }
        _ => panic!("a matching blob must be handed out for signing"),
    }

    // A sign request for an unknown blob draws the failure reply.
    let mut other = vec![13u8];
    append_lp(&mut other, b"unknown-blob");
    append_lp(&mut other, payload);
    append_be32(&mut other, 0);
    match agent_respond(&keys, &other) {
        AgentAction::Reply(r) => assert_eq!(r, vec![5u8]),
        _ => panic!("an unknown blob must fail"),
    }
}
