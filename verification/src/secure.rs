//! Message signatures from a static shared key: SHA-1 over the data, the peer's node id
//! and the key for messages between nodes, SHA-256 over the message and the key for
//! authorization.

use sha1::{Digest, Sha1};
use sha2::Sha256;
use vstd::prelude::*;
use vstd::string::StringSliceAdditionalSpecFns;

use crate::dht_kv::msg::bytes_of;
use crate::msg::be32_bytes;
use crate::types::NodeId;

verus! {

/// The SHA-1 digest of `data`, as the `sha1` crate computes it.
pub uninterp spec fn sha1_digest(data: Seq<u8>) -> Seq<u8>;

/// The SHA-256 digest of `data`, as the `sha2` crate computes it.
pub uninterp spec fn sha256_digest(data: Seq<u8>) -> Seq<u8>;

/// Calls `Digest::digest` of `sha1::Sha1`. Claimed: the result is the digest of `data`,
/// 20 bytes long (a SHA-1 digest has 160 bits).
#[verifier::external_body]
fn sha1_of(data: &[u8]) -> (r: Vec<u8>)
    ensures
        r@ == sha1_digest(data@),
        r@.len() == 20,
{
    Sha1::digest(data).to_vec()
}

/// Calls `Digest::digest` of `sha2::Sha256`. Claimed: the result is the digest of `data`,
/// 32 bytes long (a SHA-256 digest has 256 bits).
#[verifier::external_body]
fn sha256_of(data: &[u8]) -> (r: Vec<u8>)
    ensures
        r@ == sha256_digest(data@),
        r@.len() == 32,
{
    Sha256::digest(data).to_vec()
}

/// `a` followed by `b`.
fn concat(a: &[u8], b: &[u8]) -> (r: Vec<u8>)
    ensures
        r@ == a@ + b@,
{
    let mut r = bytes_of(a);
    let mut i: usize = 0;
    while i < b.len()
        invariant
            i <= b@.len(),
            r@ == a@ + b@.take(i as int),
        decreases b@.len() - i,
    {
        r.push(b[i]);
        proof {
            assert(b@.take(i + 1) =~= b@.take(i as int).push(b@[i as int]));
            assert(a@ + b@.take(i + 1) =~= (a@ + b@.take(i as int)).push(b@[i as int]));
        }
        i = i + 1;
    }
    assert(b@.take(i as int) =~= b@);
    r
}

/// The big-endian bytes of `x`.
fn be32_vec(x: u32) -> (r: Vec<u8>)
    ensures
        r@ == be32_bytes(x),
{
    let r = vec![(x / 16777216) as u8, ((x / 65536) % 256) as u8, ((x / 256) % 256) as u8, (x % 256) as u8];
    assert(r@ =~= be32_bytes(x));
    r
}

/// Signs and verifies data exchanged with other nodes.
pub trait DataSecure {
    /// The signature of `data` for the node `remote_node_id`.
    spec fn signature(&self, remote_node_id: NodeId, data: Seq<u8>) -> Seq<u8>;

    fn sign_msg(&self, remote_node_id: NodeId, data: &[u8]) -> (r: Vec<u8>)
        ensures
            r@ == self.signature(remote_node_id, data@),
    ;

    fn verify_msg(&self, remote_node_id: NodeId, data: &[u8], signature: &[u8]) -> (r: bool)
        ensures
            r == (self.signature(remote_node_id, data@) == signature@),
    ;
}

/// What a static-key signature covers: the data, the peer's node id (big-endian) and the key.
pub open spec fn static_key_input(data: Seq<u8>, remote_node_id: NodeId, key: Seq<u8>) -> Seq<u8> {
    data + be32_bytes(remote_node_id) + key
}

/// Signatures by SHA-1 with a static key.
pub struct StaticKeySecure {
    key: Vec<u8>,
}

impl StaticKeySecure {
    /// The bytes of the key.
    pub closed spec fn key_bytes(&self) -> Seq<u8> {
        self.key@
    }

    pub fn new(key: &str) -> (r: Self)
        ensures
            r.key_bytes() == key.spec_bytes(),
    {
        StaticKeySecure { key: bytes_of(key.as_bytes()) }
    }

    fn digest(&self, remote_node_id: NodeId, data: &[u8]) -> (r: Vec<u8>)
        ensures
            r@ == sha1_digest(static_key_input(data@, remote_node_id, self.key_bytes())),
    {
        let node = be32_vec(remote_node_id);
        let head = concat(data, node.as_slice());
        let input = concat(head.as_slice(), self.key.as_slice());
        sha1_of(input.as_slice())
    }
}

impl DataSecure for StaticKeySecure {
    open spec fn signature(&self, remote_node_id: NodeId, data: Seq<u8>) -> Seq<u8> {
        sha1_digest(static_key_input(data, remote_node_id, self.key_bytes()))
    }

    fn sign_msg(&self, remote_node_id: NodeId, data: &[u8]) -> (r: Vec<u8>) {
        self.digest(remote_node_id, data)
    }

    fn verify_msg(&self, remote_node_id: NodeId, data: &[u8], signature: &[u8]) -> (r: bool) {
        let d = self.digest(remote_node_id, data);
        bytes_eq(d.as_slice(), signature)
    }
}

/// Whether `a` and `b` hold the same bytes.
pub fn bytes_eq(a: &[u8], b: &[u8]) -> (r: bool)
    ensures
        r == (a@ == b@),
{
    if a.len() != b.len() {
        return false;
    }
    let mut i: usize = 0;
    while i < a.len()
        invariant
            a@.len() == b@.len(),
            i <= a@.len(),
            forall|k: int| 0 <= k < i ==> a@[k] == b@[k],
        decreases a@.len() - i,
    {
        if a[i] != b[i] {
            return false;
        }
        i = i + 1;
    }
    assert(a@ =~= b@);
    true
}

/// Signs and verifies objects by their serialized bytes.
pub struct ObjectSecure;

impl ObjectSecure {
    /// The signature of an object whose serialization is `obj`, for `remote_node_id`.
    pub fn sign_obj<S: DataSecure>(secure: &S, remote_node_id: NodeId, obj: &[u8]) -> (r: Vec<u8>)
        ensures
            r@ == secure.signature(remote_node_id, obj@),
    {
        secure.sign_msg(remote_node_id, obj)
    }

    /// Whether `signature` signs an object whose serialization is `obj`, for `remote_node_id`.
    pub fn verify_obj<S: DataSecure>(secure: &S, remote_node_id: NodeId, obj: &[u8], signature: &[u8]) -> (r: bool)
        ensures
            r == (secure.signature(remote_node_id, obj@) == signature@),
    {
        secure.verify_msg(remote_node_id, obj, signature)
    }
}

/// What a static-key authorization signs: the message followed by the key.
pub open spec fn authorization_input(msg: Seq<u8>, key: Seq<u8>) -> Seq<u8> {
    msg + key
}

/// Authorization by SHA-256 over the message salted with a static key.
pub struct StaticKeyAuthorization {
    key: Vec<u8>,
}

impl StaticKeyAuthorization {
    /// The bytes of the key.
    pub closed spec fn key_bytes(&self) -> Seq<u8> {
        self.key@
    }

    pub fn new(key: &str) -> (r: Self)
        ensures
            r.key_bytes() == key.spec_bytes(),
    {
        StaticKeyAuthorization { key: bytes_of(key.as_bytes()) }
    }

    /// The signature of `msg`: its 32-byte hash salted with the key.
    pub fn sign(&self, msg: &[u8]) -> (r: Vec<u8>)
        ensures
            r@ == sha256_digest(authorization_input(msg@, self.key_bytes())),
            r@.len() == 32,
    {
        let input = concat(msg, self.key.as_slice());
        sha256_of(input.as_slice())
    }

    /// Accepts `msg` when `sign` is its signature.
    pub fn validate(&self, _node_id: NodeId, msg: &[u8], sign: &[u8]) -> (r: Option<()>)
        ensures
            r is Some <==> sha256_digest(authorization_input(msg@, self.key_bytes())) == sign@,
    {
        let input = concat(msg, self.key.as_slice());
        let hash = sha256_of(input.as_slice());
        if bytes_eq(hash.as_slice(), sign) {
            Some(())
        } else {
            None
        }
    }
}

/// A signature made by a node is accepted by a node with the same key, for the same peer
/// and data.
pub proof fn law_static_key_sign_verify(a: StaticKeySecure, b: StaticKeySecure, remote_node_id: NodeId, data: Seq<u8>)
    requires
        a.key_bytes() == b.key_bytes(),
    ensures
        b.signature(remote_node_id, data) == a.signature(remote_node_id, data),
{
}

/// An authorization signature is accepted by an authorization with the same key.
pub proof fn law_authorization_sign_validate(a: StaticKeyAuthorization, b: StaticKeyAuthorization, msg: Seq<u8>)
    requires
        a.key_bytes() == b.key_bytes(),
    ensures
        sha256_digest(authorization_input(msg, b.key_bytes())) == sha256_digest(authorization_input(msg, a.key_bytes())),
{
}

} // verus!
