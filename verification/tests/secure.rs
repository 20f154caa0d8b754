use atm0s_sdn_network::secure::{DataSecure, ObjectSecure, StaticKeyAuthorization, StaticKeySecure};
use sha1::{Digest, Sha1};
use sha2::Sha256;

#[test]
fn test_sign_verify() {
    let secure = StaticKeySecure::new("secure-token");
    let data = b"Hello World";
    let signature = secure.sign_msg(1, data);
    assert!(secure.verify_msg(1, data, &signature));
    assert!(!secure.verify_msg(2, data, &signature));
}

#[test]
fn test_two_msg_different_signatures() {
    let secure = StaticKeySecure::new("secure-token");
    let data1 = b"Hello World";
    let data2 = b"Hello World 2";
    let signature1 = secure.sign_msg(1, data1);
    let signature2 = secure.sign_msg(1, data2);
    assert_ne!(signature1, signature2);
}

#[test]
fn static_key_signature_is_sha1_of_data_node_and_key() {
    let secure = StaticKeySecure::new("k");
    let expected = Sha1::digest(b"ab\x00\x00\x01\x02k").to_vec();
    assert_eq!(secure.sign_msg(0x0102, b"ab"), expected);
    assert_eq!(expected.len(), 20);
}

#[test]
fn object_signature_uses_the_signer() {
    let secure = StaticKeySecure::new("obj-key");
    let obj = vec![9u8, 8, 7];
    let sig = ObjectSecure::sign_obj(&secure, 5, &obj);
    assert_eq!(sig, secure.sign_msg(5, &obj));
    assert!(ObjectSecure::verify_obj(&secure, 5, &obj, &sig));
    assert!(!ObjectSecure::verify_obj(&secure, 5, &[9u8, 8], &sig));
}

#[test]
fn test_static_key_authorization() {
    let auth = StaticKeyAuthorization::new("demo-key");

    let msg = b"hello";
    let sign = auth.sign(msg);
    assert_eq!(auth.validate(1, msg, &sign), Some(()));
}

#[test]
fn test_static_key_authorization_invalid() {
    let auth = StaticKeyAuthorization::new("demo-key");

    let msg = b"hello";
    let sign = auth.sign(msg);
    assert_eq!(auth.validate(1, msg, &sign[1..]), None);
}

#[test]
fn authorization_signature_is_sha256_of_message_and_key() {
    let auth = StaticKeyAuthorization::new("demo-key");
    assert_eq!(auth.sign(b"hello"), Sha256::digest(b"hellodemo-key").to_vec());
    let other = StaticKeyAuthorization::new("other-key");
    assert_eq!(other.validate(1, b"hello", &auth.sign(b"hello")), None);
}

#[test]
fn authorization_signature_has_32_bytes() {
    let auth = StaticKeyAuthorization::new("demo-key");
    let sign = auth.sign(b"hello");
    assert_eq!(sign.len(), 32);
    assert_eq!(auth.validate(1, b"hello", &sign), Some(()));
    assert_eq!(auth.validate(1, b"hello", &sign[..31]), None);
}
