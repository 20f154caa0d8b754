//! Encryption of the messages of a connection: an X25519 handshake gives both ends the same
//! key; each message is sealed with AES-256-GCM under a nonce of four random bytes and the
//! 64-bit big-endian time it was sent, which comes first in the frame; a message older than
//! `MSG_TIMEOUT_MS` is refused.

use vstd::prelude::*;

use aes_gcm::aead::{Aead, AeadCore, KeyInit};
use aes_gcm::{Aes256Gcm, Key, Nonce};
use rand::RngCore;

verus! {

/// A message is refused once it is older than this.
pub const MSG_TIMEOUT_MS: u64 = 5000;
/// The longest plaintext that AES-GCM seals.
pub const P_MAX: u64 = 0x10_0000_0000;

/// The ciphertext (with its 16-byte tag) that AES-256-GCM makes of `plaintext` under `key` and
/// `nonce`.
pub uninterp spec fn aes_gcm_seal(key: Seq<u8>, nonce: Seq<u8>, plaintext: Seq<u8>) -> Seq<u8>;

/// What AES-256-GCM makes of `ciphertext` under `key` and `nonce`: the plaintext when the tag
/// is right.
pub uninterp spec fn aes_gcm_open(key: Seq<u8>, nonce: Seq<u8>, ciphertext: Seq<u8>) -> Option<Seq<u8>>;

/// The X25519 function of RFC 7748 on the 32-byte scalar `k` and the 32-byte u-coordinate
/// `u`, as `x25519_dalek::x25519` computes it.
pub uninterp spec fn x25519_result(k: Seq<u8>, u: Seq<u8>) -> Seq<u8>;

/// The u-coordinate of the X25519 base point: 9, then 31 zero bytes.
pub open spec fn x25519_basepoint() -> Seq<u8> {
    Seq::new(32, |i: int| if i == 0 { 9u8 } else { 0u8 })
}

/// The public key of the secret `k`: X25519 of `k` and the base point.
pub open spec fn public_of(k: Seq<u8>) -> Seq<u8> {
    x25519_result(k, x25519_basepoint())
}

/// Thirty-two random bytes for an X25519 secret, drawn as `EphemeralSecret::random` draws
/// them (`RngCore::fill_bytes` of `rand`'s `OsRng`); nothing is claimed of them but their
/// number.
#[verifier::external_body]
fn random_secret() -> (r: Vec<u8>)
    ensures
        r@.len() == 32,
{
    let mut bytes = [0u8; 32];
    rand::rngs::OsRng.fill_bytes(&mut bytes);
    bytes.to_vec()
}

/// `x25519_dalek::x25519(k, u)`, the X25519 function of RFC 7748. Claimed: the result is the
/// named result for `k` and `u`, 32 bytes long; and when `u` is the base point (so the result
/// is the public key of `k`), for every other 32-byte secret `j`, X25519 of `j` and that public
/// key equals X25519 of `k` and the public key of `j`. This last fact is the Diffie-Hellman
/// agreement that RFC 7748 (section 6.1) states and that the function's documentation
/// asserts in its example.
#[verifier::external_body]
fn x25519_of(k: &[u8], u: &[u8]) -> (r: Vec<u8>)
    requires
        k@.len() == 32,
        u@.len() == 32,
    ensures
        r@ == x25519_result(k@, u@),
        r@.len() == 32,
        u@ == x25519_basepoint() ==> forall|j: Seq<u8>| j.len() == 32 ==> #[trigger] x25519_result(j, r@) == x25519_result(k@, x25519_result(j, u@)),
{
    let mut kb = [0u8; 32];
    kb.copy_from_slice(k);
    let mut ub = [0u8; 32];
    ub.copy_from_slice(u);
    x25519_dalek::x25519(kb, ub).to_vec()
}

/// The base point's bytes.
fn basepoint_bytes() -> (r: Vec<u8>)
    ensures
        r@ == x25519_basepoint(),
{
    let mut r: Vec<u8> = Vec::new();
    r.push(9u8);
    let mut i: usize = 1;
    while i < 32
        invariant
            1 <= i <= 32,
            r@.len() == i,
            r@[0] == 9u8,
            forall|k: int| 1 <= k < i ==> r@[k] == 0u8,
        decreases 32 - i,
    {
        r.push(0u8);
        i = i + 1;
    }
    assert(r@ =~= x25519_basepoint());
    r
}

/// Twelve random bytes (`AeadCore::generate_nonce` with the system's randomness); nothing is
/// claimed of them but their number.
#[verifier::external_body]
fn random_nonce() -> (r: Vec<u8>)
    ensures
        r@.len() == 12,
{
    Aes256Gcm::generate_nonce(&mut rand::rngs::OsRng).to_vec()
}

/// `plaintext` sealed with AES-256-GCM under `key` and `nonce` (`Aead::encrypt` of the cipher
/// made from the key): it fails exactly when the plaintext is longer than `P_MAX` bytes, and
/// otherwise is the named ciphertext, 16 bytes longer than the plaintext, which opens under
/// the same key and nonce to the plaintext.
#[verifier::external_body]
fn aes_seal(key: &[u8], nonce: &[u8], plaintext: &[u8]) -> (r: Option<Vec<u8>>)
    requires
        key@.len() == 32,
        nonce@.len() == 12,
    ensures
        r is Some <==> plaintext@.len() <= P_MAX,
        r matches Some(c) ==> c@ == aes_gcm_seal(key@, nonce@, plaintext@) && c@.len() == plaintext@.len() + 16,
        r matches Some(c) ==> aes_gcm_open(key@, nonce@, c@) == Some(plaintext@),
{
    let cipher = Aes256Gcm::new(Key::<Aes256Gcm>::from_slice(key));
    cipher.encrypt(Nonce::from_slice(nonce), plaintext).ok()
}

/// `ciphertext` opened with AES-256-GCM under `key` and `nonce` (`Aead::decrypt` of the
/// cipher made from the key): the named result, 16 bytes shorter than the ciphertext when
/// there is one.
#[verifier::external_body]
fn aes_open(key: &[u8], nonce: &[u8], ciphertext: &[u8]) -> (r: Option<Vec<u8>>)
    requires
        key@.len() == 32,
        nonce@.len() == 12,
    ensures
        r matches Some(p) ==> aes_gcm_open(key@, nonce@, ciphertext@) == Some(p@) && p@.len() + 16 == ciphertext@.len(),
        r is None ==> aes_gcm_open(key@, nonce@, ciphertext@) is None,
{
    let cipher = Aes256Gcm::new(Key::<Aes256Gcm>::from_slice(key));
    cipher.decrypt(Nonce::from_slice(nonce), ciphertext).ok()
}

/// Why a handshake failed: its secret was used already, or the peer's public key is not 32
/// bytes long.
#[derive(Debug, Clone, Copy, PartialEq, Eq, Structural)]
pub enum HandshakeError {
    InvalidState,
    InvalidPublicKey,
}

/// Why a message could not be sealed.
#[derive(Debug, Clone, Copy, PartialEq, Eq, Structural)]
pub enum EncryptionError {
    EncryptFailed,
}

/// Why a message could not be opened: too short or not sealed under this key, or too old.
#[derive(Debug, Clone, Copy, PartialEq, Eq, Structural)]
pub enum DecryptionError {
    TooSmall,
    TooOld,
}

/// The big-endian bytes of `x`.
pub open spec fn be64_bytes(x: u64) -> Seq<u8> {
    seq![(x >> 56) as u8, (x >> 48) as u8, (x >> 40) as u8, (x >> 32) as u8, (x >> 24) as u8, (x >> 16) as u8, (x >> 8) as u8, x as u8]
}

/// The big-endian number of the eight bytes of `b` from `i`.
pub open spec fn be64_at(b: Seq<u8>, i: int) -> u64 {
    ((b[i] as u64) << 56u64) | ((b[i + 1] as u64) << 48u64) | ((b[i + 2] as u64) << 40u64) | ((b[i + 3] as u64) << 32u64) | ((b[i + 4] as u64)
        << 24u64) | ((b[i + 5] as u64) << 16u64) | ((b[i + 6] as u64) << 8u64) | (b[i + 7] as u64)
}

/// The nonce of a message sent at `ts`: four random bytes, then the time.
pub open spec fn nonce_of(rnd: Seq<u8>, ts: u64) -> Seq<u8> {
    rnd + be64_bytes(ts)
}

/// The frame of `plaintext` sent at `ts` under `key`: the nonce, then the ciphertext.
pub open spec fn frame(key: Seq<u8>, rnd: Seq<u8>, ts: u64, plaintext: Seq<u8>) -> Seq<u8> {
    nonce_of(rnd, ts) + aes_gcm_seal(key, nonce_of(rnd, ts), plaintext)
}

/// Whether the sealed part of the frame of `plaintext` sent at `ts` opens to it again.
pub open spec fn opens(key: Seq<u8>, rnd: Seq<u8>, ts: u64, plaintext: Seq<u8>) -> bool {
    aes_gcm_open(key, nonce_of(rnd, ts), aes_gcm_seal(key, nonce_of(rnd, ts), plaintext)) == Some(plaintext)
}

/// What opening `data` at `now` under `key` gives.
pub open spec fn decrypt_spec(key: Seq<u8>, now: u64, data: Seq<u8>) -> Result<Seq<u8>, DecryptionError> {
    if data.len() < 12 {
        Err(DecryptionError::TooSmall)
    } else if be64_at(data, 4) + MSG_TIMEOUT_MS < now {
        Err(DecryptionError::TooOld)
    } else {
        match aes_gcm_open(key, data.take(12), data.skip(12)) {
            Some(p) => Ok(p),
            None => Err(DecryptionError::TooSmall),
        }
    }
}

proof fn lemma_be64_roundtrip(x: u64)
    ensures
        be64_at(be64_bytes(x), 0) == x,
{
    let b = be64_bytes(x);
    let (b0, b1, b2, b3, b4, b5, b6, b7) = (b[0], b[1], b[2], b[3], b[4], b[5], b[6], b[7]);
    assert(((b0 as u64) << 56u64) | ((b1 as u64) << 48u64) | ((b2 as u64) << 40u64) | ((b3 as u64) << 32u64) | ((b4 as u64) << 24u64) | ((b5 as u64)
        << 16u64) | ((b6 as u64) << 8u64) | (b7 as u64) == x) by (bit_vector)
        requires
            b0 == (x >> 56) as u8,
            b1 == (x >> 48) as u8,
            b2 == (x >> 40) as u8,
            b3 == (x >> 32) as u8,
            b4 == (x >> 24) as u8,
            b5 == (x >> 16) as u8,
            b6 == (x >> 8) as u8,
            b7 == x as u8,
    ;
}

/// The frame of a message sent at `ts` carries `ts` where it is read back.
pub proof fn lemma_frame_time(key: Seq<u8>, rnd: Seq<u8>, ts: u64, plaintext: Seq<u8>)
    requires
        rnd.len() == 4,
    ensures
        frame(key, rnd, ts, plaintext).len() >= 12,
        be64_at(frame(key, rnd, ts, plaintext), 4) == ts,
        frame(key, rnd, ts, plaintext).take(12) == nonce_of(rnd, ts),
        frame(key, rnd, ts, plaintext).skip(12) == aes_gcm_seal(key, nonce_of(rnd, ts), plaintext),
{
    let f = frame(key, rnd, ts, plaintext);
    let n = nonce_of(rnd, ts);
    lemma_be64_roundtrip(ts);
    assert(f.take(12) =~= n);
    assert(f.skip(12) =~= aes_gcm_seal(key, n, plaintext));
    assert(f.subrange(4, 12) =~= be64_bytes(ts));
    let b = be64_bytes(ts);
    assert(f[4] == b[0] && f[5] == b[1] && f[6] == b[2] && f[7] == b[3] && f[8] == b[4] && f[9] == b[5] && f[10] == b[6] && f[11] == b[7]);
}

/// A frame sealed at `sent` (as the encryptor makes it) and opened under the same key no
/// later than `MSG_TIMEOUT_MS` after gives back its plaintext; opened later, it is too old.
pub proof fn law_encrypt_then_decrypt(key: Seq<u8>, rnd: Seq<u8>, sent: u64, now: u64, plaintext: Seq<u8>)
    requires
        rnd.len() == 4,
        opens(key, rnd, sent, plaintext),
    ensures
        now <= sent + MSG_TIMEOUT_MS ==> decrypt_spec(key, now, frame(key, rnd, sent, plaintext)) == Ok::<Seq<u8>, DecryptionError>(plaintext),
        now > sent + MSG_TIMEOUT_MS ==> decrypt_spec(key, now, frame(key, rnd, sent, plaintext)) == Err::<Seq<u8>, DecryptionError>(
            DecryptionError::TooOld,
        ),
{
    lemma_frame_time(key, rnd, sent, plaintext);
}

/// The eight big-endian bytes of `x`, added to `out`.
fn push_be64(out: &mut Vec<u8>, x: u64)
    ensures
        final(out)@ == old(out)@ + be64_bytes(x),
{
    out.push((x >> 56) as u8);
    out.push((x >> 48) as u8);
    out.push((x >> 40) as u8);
    out.push((x >> 32) as u8);
    out.push((x >> 24) as u8);
    out.push((x >> 16) as u8);
    out.push((x >> 8) as u8);
    out.push(x as u8);
    assert(out@ =~= old(out)@ + be64_bytes(x));
}

/// The big-endian number of the eight bytes of `b` from `i`.
fn read_be64(b: &[u8], i: usize) -> (r: u64)
    requires
        i + 8 <= b@.len(),
    ensures
        r == be64_at(b@, i as int),
{
    ((b[i] as u64) << 56u64) | ((b[i + 1] as u64) << 48u64) | ((b[i + 2] as u64) << 40u64) | ((b[i + 3] as u64) << 32u64) | ((b[i + 4] as u64) << 24u64)
        | ((b[i + 5] as u64) << 16u64) | ((b[i + 6] as u64) << 8u64) | (b[i + 7] as u64)
}

/// The bytes of `b` from `start` to `end`.
fn copy_range(b: &[u8], start: usize, end: usize) -> (r: Vec<u8>)
    requires
        start <= end <= b@.len(),
    ensures
        r@ == b@.subrange(start as int, end as int),
{
    let mut r: Vec<u8> = Vec::new();
    let mut i: usize = start;
    while i < end
        invariant
            start <= i <= end,
            end <= b@.len(),
            r@ == b@.subrange(start as int, i as int),
        decreases end - i,
    {
        r.push(b[i]);
        assert(b@.subrange(start as int, i + 1) =~= b@.subrange(start as int, i as int).push(b@[i as int]));
        i = i + 1;
    }
    r
}

/// Writes `src` into `out` from `at`.
fn write_at(out: &mut [u8], at: usize, src: &[u8])
    requires
        at + src@.len() <= old(out)@.len(),
    ensures
        final(out)@ == old(out)@.take(at as int) + src@ + old(out)@.skip(at + src@.len()),
{
    let ghost o0 = out@;
    let n: usize = out.len();
    let mut i: usize = 0;
    while i < src.len()
        invariant
            i <= src@.len(),
            at + src@.len() <= o0.len(),
            o0.len() == n,
            out@.len() == o0.len(),
            forall|k: int| 0 <= k < at ==> out@[k] == o0[k],
            forall|k: int| at <= k < at + i ==> out@[k] == src@[k - at],
            forall|k: int| at + i <= k < o0.len() ==> out@[k] == o0[k],
        decreases src@.len() - i,
    {
        out[at + i] = src[i];
        i = i + 1;
    }
    assert(out@ =~= o0.take(at as int) + src@ + o0.skip(at + src@.len()));
}

/// Seals the messages of a connection under its shared key.
pub struct EncryptorXDA {
    key: Vec<u8>,
}

impl EncryptorXDA {
    /// The shared key.
    pub closed spec fn key(&self) -> Seq<u8> {
        self.key@
    }

    /// An encryptor for the 32-byte shared key `shared_key`.
    pub fn new(shared_key: &[u8]) -> (r: Self)
        requires
            shared_key@.len() == 32,
        ensures
            r.key() == shared_key@,
    {
        EncryptorXDA { key: copy_range(shared_key, 0, shared_key.len()) }
    }

    /// The frame of `data` sent at `now_ms`: four random bytes and the time make the nonce,
    /// which comes first, and the sealed data follows. It fails when the data is longer than
    /// AES-GCM seals.
    pub fn encrypt_vec(&mut self, now_ms: u64, data: &[u8]) -> (r: Result<Vec<u8>, EncryptionError>)
        requires
            old(self).key().len() == 32,
        ensures
            final(self).key() == old(self).key(),
            r is Ok <==> data@.len() <= P_MAX,
            r matches Ok(v) ==> v@.len() == 12 + data@.len() + 16,
            r matches Ok(v) ==> exists|rnd: Seq<u8>|
                rnd.len() == 4 && v@ == #[trigger] frame(old(self).key(), rnd, now_ms, data@) && opens(old(self).key(), rnd, now_ms, data@),
    {
        let random = random_nonce();
        let mut nonce = copy_range(&random, 0, 4);
        let ghost rnd = nonce@;
        push_be64(&mut nonce, now_ms);
        match aes_seal(&self.key, &nonce, data) {
            Some(sealed) => {
                let mut out = nonce;
                let mut i: usize = 0;
                let ghost n = out@;
                while i < sealed.len()
                    invariant
                        i <= sealed@.len(),
                        out@ == n + sealed@.take(i as int),
                    decreases sealed@.len() - i,
                {
                    out.push(sealed[i]);
                    assert(sealed@.take(i + 1) =~= sealed@.take(i as int).push(sealed@[i as int]));
                    i = i + 1;
                }
                assert(sealed@.take(i as int) =~= sealed@);
                assert(out@ == frame(self.key@, rnd, now_ms, data@));
                assert(opens(self.key@, rnd, now_ms, data@));
                Ok(out)
            },
            None => Err(EncryptionError::EncryptFailed),
        }
    }

    /// Writes the frame of `data` sent at `now_ms` to the start of `out`, and gives its
    /// length. The nonce and the data go into `out` first and are then sealed in place, so a
    /// failure leaves them there: with data longer than AES-GCM seals, the nonce and the plain
    /// data; with no room for the 16-byte tag, the nonce and the sealed data without its tag.
    pub fn encrypt(&mut self, now_ms: u64, data: &[u8], out: &mut [u8]) -> (r: Result<usize, EncryptionError>)
        requires
            old(self).key().len() == 32,
            old(out)@.len() >= 12 + data@.len(),
        ensures
            final(self).key() == old(self).key(),
            final(out)@.len() == old(out)@.len(),
            r is Ok <==> data@.len() <= P_MAX && 12 + data@.len() + 16 <= old(out)@.len(),
            r matches Ok(n) ==> n == 12 + data@.len() + 16 && exists|rnd: Seq<u8>|
                rnd.len() == 4 && final(out)@.take(n as int) == #[trigger] frame(old(self).key(), rnd, now_ms, data@) && final(out)@.skip(n as int)
                    == old(out)@.skip(n as int),
            r is Err && data@.len() > P_MAX ==> exists|rnd: Seq<u8>|
                rnd.len() == 4 && final(out)@ == #[trigger] nonce_of(rnd, now_ms) + data@ + old(out)@.skip(12 + data@.len() as int),
            r is Err && data@.len() <= P_MAX ==> exists|rnd: Seq<u8>|
                rnd.len() == 4 && final(out)@ == #[trigger] frame(old(self).key(), rnd, now_ms, data@).take(12 + data@.len() as int) + old(out)@.skip(
                    12 + data@.len() as int,
                ),
    {
        if data.len() as u64 > P_MAX {
            let random = random_nonce();
            let mut nonce = copy_range(&random, 0, 4);
            let ghost rnd = nonce@;
            push_be64(&mut nonce, now_ms);
            let ghost o0 = out@;
            write_at(out, 0, nonce.as_slice());
            let ghost o1 = out@;
            write_at(out, 12, data);
            proof {
                assert(out@ =~= nonce_of(rnd, now_ms) + data@ + o0.skip(12 + data@.len() as int));
            }
            return Err(EncryptionError::EncryptFailed);
        }
        let framed = self.encrypt_vec(now_ms, data);
        match framed {
            Ok(v) => {
                let ghost o0 = out@;
                let ghost rnd = choose|rnd: Seq<u8>| rnd.len() == 4 && v@ == #[trigger] frame(self.key@, rnd, now_ms, data@);
                if out.len() - 12 - data.len() >= 16 {
                    write_at(out, 0, v.as_slice());
                    proof {
                        assert(out@.take(v@.len() as int) =~= v@);
                        assert(out@.skip(v@.len() as int) =~= o0.skip(v@.len() as int));
                    }
                    Ok(v.len())
                } else {
                    let k = 12 + data.len();
                    let vs = v.as_slice();
                    let head = &vs[0..k];
                    assert(head@ =~= v@.take(k as int));
                    write_at(out, 0, head);
                    proof {
                        assert(out@ =~= frame(self.key@, rnd, now_ms, data@).take(k as int) + o0.skip(k as int));
                    }
                    Err(EncryptionError::EncryptFailed)
                }
            },
            Err(e) => Err(e),
        }
    }

    /// Another encryptor with the same key.
    pub fn clone_box(&self) -> (r: Self)
        ensures
            r.key() == self.key(),
    {
        EncryptorXDA { key: copy_range(&self.key, 0, self.key.len()) }
    }
}

/// Opens the messages of a connection under its shared key.
pub struct DecryptorXDA {
    key: Vec<u8>,
}

impl DecryptorXDA {
    /// The shared key.
    pub closed spec fn key(&self) -> Seq<u8> {
        self.key@
    }

    /// A decryptor for the 32-byte shared key `shared_key`.
    pub fn new(shared_key: &[u8]) -> (r: Self)
        requires
            shared_key@.len() == 32,
        ensures
            r.key() == shared_key@,
    {
        DecryptorXDA { key: copy_range(shared_key, 0, shared_key.len()) }
    }

    /// The plaintext of the frame `data` at `now_ms`. A frame sealed under this key at a time
    /// no more than `MSG_TIMEOUT_MS` before gives back its plaintext.
    pub fn decrypt_vec(&mut self, now_ms: u64, data: &[u8]) -> (r: Result<Vec<u8>, DecryptionError>)
        requires
            old(self).key().len() == 32,
        ensures
            final(self).key() == old(self).key(),
            r matches Ok(p) ==> p@.len() + 28 == data@.len(),
            match r {
                Ok(p) => decrypt_spec(old(self).key(), now_ms, data@) == Ok::<Seq<u8>, DecryptionError>(p@),
                Err(e) => decrypt_spec(old(self).key(), now_ms, data@) == Err::<Seq<u8>, DecryptionError>(e),
            },
    {
        if data.len() < 12 {
            return Err(DecryptionError::TooSmall);
        }
        let sent_ts = read_be64(data, 4);
        if sent_ts < now_ms && now_ms - sent_ts > MSG_TIMEOUT_MS {
            return Err(DecryptionError::TooOld);
        }
        let nonce = copy_range(data, 0, 12);
        let sealed = copy_range(data, 12, data.len());
        proof {
            assert(nonce@ =~= data@.take(12));
            assert(sealed@ =~= data@.skip(12));
        }
        match aes_open(&self.key, &nonce, &sealed) {
            Some(p) => Ok(p),
            None => Err(DecryptionError::TooSmall),
        }
    }

    /// Writes the plaintext of the frame `data` at `now_ms` to the start of `out`, and gives
    /// its length. A frame too short or too old leaves `out` as it was; otherwise the sealed
    /// part is copied into `out` and opened in place, so on success the 16-byte tag stays after
    /// the plaintext, and when opening fails the sealed part stays there.
    pub fn decrypt(&mut self, now_ms: u64, data: &[u8], out: &mut [u8]) -> (r: Result<usize, DecryptionError>)
        requires
            old(self).key().len() == 32,
            data@.len() >= 12 ==> old(out)@.len() >= data@.len() - 12,
        ensures
            final(self).key() == old(self).key(),
            final(out)@.len() == old(out)@.len(),
            match r {
                Ok(n) => decrypt_spec(old(self).key(), now_ms, data@) matches Ok(p) && p.len() == n && final(out)@ == p + data@.skip(data@.len() - 16)
                    + old(out)@.skip(data@.len() - 12),
                Err(e) => decrypt_spec(old(self).key(), now_ms, data@) == Err::<Seq<u8>, DecryptionError>(e),
            },
            r is Err && (data@.len() < 12 || be64_at(data@, 4) + MSG_TIMEOUT_MS < now_ms) ==> final(out)@ == old(out)@,
            r is Err && !(data@.len() < 12 || be64_at(data@, 4) + MSG_TIMEOUT_MS < now_ms) ==> final(out)@ == data@.skip(12) + old(out)@.skip(
                data@.len() - 12,
            ),
    {
        if data.len() < 12 {
            return Err(DecryptionError::TooSmall);
        }
        let sent_ts = read_be64(data, 4);
        if sent_ts < now_ms && now_ms - sent_ts > MSG_TIMEOUT_MS {
            return Err(DecryptionError::TooOld);
        }
        let ghost o0 = out@;
        let sealed = &data[12..data.len()];
        assert(sealed@ =~= data@.skip(12));
        write_at(out, 0, sealed);
        let ghost o1 = out@;
        proof {
            assert(o1 =~= data@.skip(12) + o0.skip(data@.len() - 12));
        }
        let opened = self.decrypt_vec(now_ms, data);
        match opened {
            Ok(p) => {
                write_at(out, 0, p.as_slice());
                proof {
                    assert(out@ =~= p@ + data@.skip(data@.len() - 16) + o0.skip(data@.len() - 12));
                }
                Ok(p.len())
            },
            Err(e) => Err(e),
        }
    }

    /// Another decryptor with the same key.
    pub fn clone_box(&self) -> (r: Self)
        ensures
            r.key() == self.key(),
    {
        DecryptorXDA { key: copy_range(&self.key, 0, self.key.len()) }
    }
}

/// The side of a handshake that asks: it sends its public key and takes the answer.
pub struct HandshakeRequesterXDA {
    key: Option<Vec<u8>>,
}

impl HandshakeRequesterXDA {
    /// An unused secret is 32 bytes long.
    #[verifier::type_invariant]
    spec fn secret_ok(&self) -> bool {
        self.key matches Some(k) ==> k@.len() == 32
    }

    /// Whether the secret is still unused.
    pub closed spec fn ready(&self) -> bool {
        self.key is Some
    }

    /// The secret, while unused.
    pub closed spec fn secret(&self) -> Seq<u8> {
        match self.key {
            Some(k) => k@,
            None => Seq::empty(),
        }
    }

    /// A requester with a fresh random secret.
    pub fn new() -> (r: Self)
        ensures
            r.ready(),
            r.secret().len() == 32,
    {
        HandshakeRequesterXDA { key: Some(random_secret()) }
    }

    /// The public key of the secret, to send, while the secret is unused.
    pub fn create_public_request(&self) -> (r: Result<Vec<u8>, HandshakeError>)
        ensures
            match r {
                Ok(v) => self.ready() && v@ == public_of(self.secret()) && v@.len() == 32,
                Err(e) => !self.ready() && e == HandshakeError::InvalidState,
            },
    {
        proof {
            use_type_invariant(self);
        }
        match &self.key {
            Some(k) => {
                let base = basepoint_bytes();
                Ok(x25519_of(k.as_slice(), base.as_slice()))
            },
            None => Err(HandshakeError::InvalidState),
        }
    }

    /// Takes the responder's public key and uses the secret up: both directions get the key
    /// shared with the responder, X25519 of the secret and the responder's key. A key of another
    /// length is refused and leaves the secret unused.
    pub fn process_public_response(&mut self, response: &[u8]) -> (r: Result<(EncryptorXDA, DecryptorXDA), HandshakeError>)
        ensures
            response@.len() != 32 ==> r == Err::<(EncryptorXDA, DecryptorXDA), HandshakeError>(HandshakeError::InvalidPublicKey) && final(self).ready() == old(
                self,
            ).ready() && final(self).secret() == old(self).secret(),
            response@.len() == 32 && !old(self).ready() ==> r == Err::<(EncryptorXDA, DecryptorXDA), HandshakeError>(HandshakeError::InvalidState),
            response@.len() == 32 ==> !final(self).ready(),
            response@.len() == 32 && old(self).ready() ==> (r matches Ok((e, d)) && e.key() == d.key() && e.key() == x25519_result(
                old(self).secret(),
                response@,
            ) && e.key().len() == 32),
    {
        proof {
            use_type_invariant(&*self);
        }
        if response.len() != 32 {
            return Err(HandshakeError::InvalidPublicKey);
        }
        let mut used = HandshakeRequesterXDA { key: None };
        std::mem::swap(self, &mut used);
        proof {
            use_type_invariant(&used);
        }
        match used.key {
            Some(k) => {
                let shared = x25519_of(k.as_slice(), response);
                Ok((EncryptorXDA::new(&shared), DecryptorXDA::new(&shared)))
            },
            None => Err(HandshakeError::InvalidState),
        }
    }
}

/// The side of a handshake that answers: it takes the requester's public key and sends its
/// own.
pub struct HandshakeResponderXDA {
    key: Option<Vec<u8>>,
}

impl HandshakeResponderXDA {
    /// An unused secret is 32 bytes long.
    #[verifier::type_invariant]
    spec fn secret_ok(&self) -> bool {
        self.key matches Some(k) ==> k@.len() == 32
    }

    /// Whether the secret is still unused.
    pub closed spec fn ready(&self) -> bool {
        self.key is Some
    }

    /// The secret, while unused.
    pub closed spec fn secret(&self) -> Seq<u8> {
        match self.key {
            Some(k) => k@,
            None => Seq::empty(),
        }
    }

    /// A responder with a fresh random secret.
    pub fn new() -> (r: Self)
        ensures
            r.ready(),
            r.secret().len() == 32,
    {
        HandshakeResponderXDA { key: Some(random_secret()) }
    }

    /// Takes the requester's public key and uses the secret up: both directions get the key
    /// shared with the requester, X25519 of the secret and the requester's key, and the answer
    /// is this side's public key. A requester whose public key is that of its secret `a`
    /// gets the same key from the answer. A key of another length is refused and leaves the
    /// secret unused.
    pub fn process_public_request(&mut self, request: &[u8]) -> (r: Result<(EncryptorXDA, DecryptorXDA, Vec<u8>), HandshakeError>)
        ensures
            request@.len() != 32 ==> r == Err::<(EncryptorXDA, DecryptorXDA, Vec<u8>), HandshakeError>(HandshakeError::InvalidPublicKey) && final(self).ready()
                == old(self).ready() && final(self).secret() == old(self).secret(),
            request@.len() == 32 && !old(self).ready() ==> r == Err::<(EncryptorXDA, DecryptorXDA, Vec<u8>), HandshakeError>(HandshakeError::InvalidState),
            request@.len() == 32 ==> !final(self).ready(),
            request@.len() == 32 && old(self).ready() ==> (r matches Ok((e, d, resp)) && e.key() == d.key() && e.key() == x25519_result(
                old(self).secret(),
                request@,
            ) && e.key().len() == 32 && resp@ == public_of(old(self).secret()) && resp@.len() == 32 && forall|a: Seq<u8>|
                a.len() == 32 && request@ == public_of(a) ==> #[trigger] x25519_result(a, resp@) == e.key()),
    {
        proof {
            use_type_invariant(&*self);
        }
        if request.len() != 32 {
            return Err(HandshakeError::InvalidPublicKey);
        }
        let mut used = HandshakeResponderXDA { key: None };
        std::mem::swap(self, &mut used);
        proof {
            use_type_invariant(&used);
        }
        match used.key {
            Some(k) => {
                let base = basepoint_bytes();
                let response = x25519_of(k.as_slice(), base.as_slice());
                let shared = x25519_of(k.as_slice(), request);
                Ok((EncryptorXDA::new(&shared), DecryptorXDA::new(&shared), response))
            },
            None => Err(HandshakeError::InvalidState),
        }
    }
}

/// Makes both sides of a handshake.
pub struct HandshakeBuilderXDA;

impl HandshakeBuilderXDA {
    pub fn requester(&self) -> (r: HandshakeRequesterXDA)
        ensures
            r.ready(),
    {
        HandshakeRequesterXDA::new()
    }

    pub fn responder(&self) -> (r: HandshakeResponderXDA)
        ensures
            r.ready(),
    {
        HandshakeResponderXDA::new()
    }
}

} // verus!
