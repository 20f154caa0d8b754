use atm0s_sdn_network::encryption::{
    DecryptionError, DecryptorXDA, EncryptorXDA, HandshakeBuilderXDA, HandshakeError, HandshakeRequesterXDA, HandshakeResponderXDA, MSG_TIMEOUT_MS,
};

#[test]
fn simple_encryption() {
    let mut client = HandshakeRequesterXDA::new();
    let mut server = HandshakeResponderXDA::new();

    let (mut s_encrypt, mut s_decrypt, res) = server.process_public_request(client.create_public_request().expect("").as_slice()).expect("Should ok");
    let (mut c_encrypt, mut c_decrypt) = client.process_public_response(res.as_slice()).expect("Should ok");

    let msg = [1, 2, 3, 4];

    let encrypted = s_encrypt.encrypt_vec(123, &msg).expect("Should ok");
    let decrypted = c_decrypt.decrypt_vec(124, &encrypted).expect("Should ok");
    assert_eq!(decrypted, msg);

    let encrypted = c_encrypt.encrypt_vec(123, &msg).expect("Should ok");
    let decrypted = s_decrypt.decrypt_vec(124, &encrypted).expect("Should ok");
    assert_eq!(decrypted, msg);
}

#[test]
fn unordered_encryption() {
    let mut client = HandshakeRequesterXDA::new();
    let mut server = HandshakeResponderXDA::new();

    let (mut s_encrypt, _s_decrypt, res) = server.process_public_request(client.create_public_request().expect("").as_slice()).expect("Should ok");
    let (_c_encrypt, mut c_decrypt) = client.process_public_response(res.as_slice()).expect("Should ok");

    let encrypted1 = s_encrypt.encrypt_vec(123, &[0, 0, 0, 1]).expect("Should ok");
    let encrypted2 = s_encrypt.encrypt_vec(124, &[0, 0, 0, 2]).expect("Should ok");
    let encrypted3 = s_encrypt.encrypt_vec(125, &[0, 0, 0, 3]).expect("Should ok");

    let decrypted1 = c_decrypt.decrypt_vec(123, &encrypted1).expect("Should ok");
    let decrypted3 = c_decrypt.decrypt_vec(125, &encrypted3).expect("Should ok");
    let decrypted2 = c_decrypt.decrypt_vec(124, &encrypted2).expect("Should ok");

    assert_eq!(decrypted1, [0, 0, 0, 1]);
    assert_eq!(decrypted2, [0, 0, 0, 2]);
    assert_eq!(decrypted3, [0, 0, 0, 3]);
}

#[test]
fn multi_thread_encyption_simulate() {
    let mut client = HandshakeRequesterXDA::new();
    let mut server = HandshakeResponderXDA::new();

    let (s_encrypt, _s_decrypt, res) = server.process_public_request(client.create_public_request().expect("").as_slice()).expect("Should ok");
    let (_c_encrypt, c_decrypt) = client.process_public_response(res.as_slice()).expect("Should ok");

    let mut s_enc_threads = Vec::new();
    let mut c_dec_threads = Vec::new();

    const ENC_THREADS: usize = 10;
    const DEC_THREADS: usize = 4;

    for _ in 0..ENC_THREADS {
        s_enc_threads.push(s_encrypt.clone_box());
    }

    for _ in 0..DEC_THREADS {
        c_dec_threads.push(c_decrypt.clone_box());
    }

    for i in 0..1024 {
        let value: u32 = i;
        let msg = value.to_be_bytes();
        let encrypted = s_enc_threads[i as usize % ENC_THREADS].encrypt_vec(i as u64, &msg).expect("Should ok");
        let decrypted = c_dec_threads[i as usize % DEC_THREADS].decrypt_vec(i as u64, &encrypted).expect("Should ok");
        assert_eq!(decrypted, msg);
    }
}

#[test]
fn encryption_frame_layout_and_timeout() {
    let key = [7u8; 32];
    let mut e = EncryptorXDA::new(&key);
    let mut d = DecryptorXDA::new(&key);
    let frame = e.encrypt_vec(0x0102_0304_0506_0708, &[9, 9]).expect("Should ok");
    assert_eq!(frame.len(), 12 + 2 + 16);
    assert_eq!(&frame[4..12], &[1, 2, 3, 4, 5, 6, 7, 8]);
    let sent = 1000;
    let frame = e.encrypt_vec(sent, &[5]).expect("Should ok");
    assert_eq!(d.decrypt_vec(sent + MSG_TIMEOUT_MS, &frame), Ok(vec![5]));
    assert_eq!(d.decrypt_vec(sent + MSG_TIMEOUT_MS + 1, &frame), Err(DecryptionError::TooOld));
    assert_eq!(d.decrypt_vec(sent, &frame[..11]), Err(DecryptionError::TooSmall));
    // another key does not open it
    let mut other = DecryptorXDA::new(&[8u8; 32]);
    assert_eq!(other.decrypt_vec(sent, &frame), Err(DecryptionError::TooSmall));
    // a changed byte does not open it
    let mut bad = frame.clone();
    let last = bad.len() - 1;
    bad[last] ^= 1;
    assert_eq!(d.decrypt_vec(sent, &bad), Err(DecryptionError::TooSmall));
}

#[test]
fn encryption_into_buffers() {
    let key = [3u8; 32];
    let mut e = EncryptorXDA::new(&key);
    let mut d = DecryptorXDA::new(&key);
    let mut out = [0u8; 40];
    let n = e.encrypt(10, &[1, 2, 3], &mut out).expect("Should ok");
    assert_eq!(n, 12 + 3 + 16);
    assert!(out[n..].iter().all(|b| *b == 0));
    let mut plain = [0u8; 40];
    assert_eq!(d.decrypt(11, &out[..n], &mut plain), Ok(3));
    assert_eq!(&plain[..3], &[1, 2, 3]);
    // the tag stays after the plaintext, the rest is untouched
    assert_eq!(&plain[3..19], &out[n - 16..n]);
    assert!(plain[19..].iter().all(|b| *b == 0));
    // no room for the tag: the nonce and the sealed data without its tag are left in the buffer
    let mut small = [0u8; 20];
    assert!(e.encrypt(10, &[1, 2, 3], &mut small).is_err());
    assert_eq!(&small[4..12], &10u64.to_be_bytes());
    assert!(small[15..].iter().all(|b| *b == 0));
    // a frame that does not open: its sealed part is left in the buffer
    let mut bad = out[..n].to_vec();
    bad[n - 1] ^= 1;
    let mut plain2 = [0u8; 40];
    assert_eq!(d.decrypt(11, &bad, &mut plain2), Err(DecryptionError::TooSmall));
    assert_eq!(&plain2[..n - 12], &bad[12..]);
    assert!(plain2[n - 12..].iter().all(|b| *b == 0));
    // a frame too old or too short leaves the buffer as it was
    let mut plain3 = [0u8; 40];
    assert_eq!(d.decrypt(10 + MSG_TIMEOUT_MS + 1, &out[..n], &mut plain3), Err(DecryptionError::TooOld));
    assert_eq!(d.decrypt(11, &out[..5], &mut plain3), Err(DecryptionError::TooSmall));
    assert_eq!(plain3, [0u8; 40]);
}

#[test]
fn handshake_errors() {
    let mut client = HandshakeBuilderXDA.requester();
    let mut server = HandshakeBuilderXDA.responder();
    assert_eq!(server.process_public_request(&[1, 2, 3]).err(), Some(HandshakeError::InvalidPublicKey));
    let req = client.create_public_request().expect("Should ok");
    assert_eq!(req.len(), 32);
    let (_, _, res) = server.process_public_request(&req).expect("Should ok");
    assert_eq!(server.process_public_request(&req).err(), Some(HandshakeError::InvalidState));
    assert_eq!(client.process_public_response(&[0u8; 31]).err(), Some(HandshakeError::InvalidPublicKey));
    assert!(client.process_public_response(&res).is_ok());
    assert_eq!(client.process_public_response(&res).err(), Some(HandshakeError::InvalidState));
    assert_eq!(client.create_public_request().err(), Some(HandshakeError::InvalidState));
}

#[test]
fn handshake_sides_agree_on_key() {
    let mut client = HandshakeBuilderXDA.requester();
    let mut server = HandshakeBuilderXDA.responder();
    let req = client.create_public_request().expect("Should ok");
    // the public key is a point of the curve, not the secret or the base point handed back
    assert_eq!(req.len(), 32);
    let base: Vec<u8> = std::iter::once(9u8).chain(std::iter::repeat(0u8).take(31)).collect();
    assert_ne!(req, base);
    let (mut s_enc, _s_dec, res) = server.process_public_request(&req).expect("Should ok");
    assert_eq!(res.len(), 32);
    assert_ne!(res, req);
    let (_c_enc, mut c_dec) = client.process_public_response(&res).expect("Should ok");
    let ct = s_enc.encrypt_vec(10, &[5, 6, 7]).expect("Should ok");
    assert_eq!(ct.len(), 12 + 3 + 16);
    assert_eq!(c_dec.decrypt_vec(11, &ct), Ok(vec![5, 6, 7]));
    // another requester's key does not open it
    let mut other = HandshakeRequesterXDA::new();
    let mut server2 = HandshakeResponderXDA::new();
    let (_, _, res2) = server2.process_public_request(&other.create_public_request().unwrap()).unwrap();
    let (_, mut o_dec) = other.process_public_response(&res2).unwrap();
    assert!(o_dec.decrypt_vec(11, &ct).is_err());
}
