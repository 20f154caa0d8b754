//! The transport message: a fixed 8-byte header, two optional 32-bit fields, then the payload.
//!
//! ```text
//!     0                   1                   2                   3
//!     0 1 2 3 4 5 6 7 8 9 0 1 2 3 4 5 6 7 8 9 0 1 2 3 4 5 6 7 8 9 0 1
//!    +-+-+-+-+-+-+-+-+-+-+-+-+-+-+-+-+-+-+-+-+-+-+-+-+-+-+-+-+-+-+-+-+
//!    |V=0|F| R |S| M |      TTL      |  FromService   |  ToService   |
//!    +-+-+-+-+-+-+-+-+-+-+-+-+-+-+-+-+-+-+-+-+-+-+-+-+-+-+-+-+-+-+-+-+
//!    |                         StreamID                              |
//!    +-+-+-+-+-+-+-+-+-+-+-+-+-+-+-+-+-+-+-+-+-+-+-+-+-+-+-+-+-+-+-+-+
//!    |                         FromNodeId (Opt)                      |
//!    +-+-+-+-+-+-+-+-+-+-+-+-+-+-+-+-+-+-+-+-+-+-+-+-+-+-+-+-+-+-+-+-+
//!    |                         RouteDestination (Opt)                |
//!    +-+-+-+-+-+-+-+-+-+-+-+-+-+-+-+-+-+-+-+-+-+-+-+-+-+-+-+-+-+-+-+-+
//! ```
//!
//! V is the version (2 bits, 0), F tells whether the source node follows (1 bit), R is the
//! route type (2 bits: direct, to node, to service, to key), S marks a secure message and
//! M is the meta (2 bits). Every route but the direct one carries a 32-bit destination.

use vstd::prelude::*;

use crate::types::{NodeId, RouteRule};

verus! {

pub const DEFAULT_MSG_TTL: u8 = 64;

const ROUTE_RULE_DIRECT: u8 = 0;
const ROUTE_RULE_TO_NODE: u8 = 1;
const ROUTE_RULE_TO_SERVICE: u8 = 2;
const ROUTE_RULE_TO_KEY: u8 = 3;

/// Why a header could not be read.
#[derive(Debug, Clone, Copy, PartialEq, Eq, Structural)]
pub enum MsgHeaderError {
    InvalidVersion,
    InvalidRoute,
    TooSmall,
}

/// The header of a transport message.
#[derive(Debug, Clone, Copy, PartialEq, Eq, Structural)]
pub struct TransportMsgHeader {
    pub version: u8,
    pub ttl: u8,
    pub from_service_id: u8,
    pub to_service_id: u8,
    pub route: RouteRule,
    pub secure: bool,
    pub meta: u8,
    pub stream_id: u32,
    /// Which can be anonymous or specific node
    pub from_node: Option<NodeId>,
}

// ---- the format -----------------------------------------------------------------------------

/// The big-endian 32-bit number at `i`.
pub open spec fn be32_at(b: Seq<u8>, i: int) -> u32 {
    (b[i] * 16777216 + b[i + 1] * 65536 + b[i + 2] * 256 + b[i + 3]) as u32
}

/// The big-endian bytes of `x`.
pub open spec fn be32_bytes(x: u32) -> Seq<u8> {
    seq![(x / 16777216) as u8, ((x / 65536) % 256) as u8, ((x / 256) % 256) as u8, (x % 256) as u8]
}

pub open spec fn route_code(r: RouteRule) -> u8 {
    match r {
        RouteRule::Direct => 0,
        RouteRule::ToNode(_) => 1,
        RouteRule::ToService(_) => 2,
        RouteRule::ToKey(_) => 3,
    }
}

/// The number of bytes that a header takes.
pub open spec fn header_len(h: TransportMsgHeader) -> nat {
    8 + (if h.from_node is Some { 4nat } else { 0nat }) + (if h.route is Direct { 0nat } else { 4nat })
}

/// The first byte of an encoded header; a version that does not fit in two bits loses its
/// high bits.
pub open spec fn first_byte(h: TransportMsgHeader) -> u8 {
    ((h.version % 4) * 64 + (if h.from_node is Some { 32int } else { 0 }) + route_code(h.route) * 8 + (if h.secure { 4int } else { 0 })
        + h.meta) as u8
}

/// The bytes of an encoded header.
pub open spec fn encode_header(h: TransportMsgHeader) -> Seq<u8> {
    seq![first_byte(h), h.ttl, h.from_service_id, h.to_service_id] + be32_bytes(h.stream_id) + (match h.from_node {
        Some(n) => be32_bytes(n),
        None => Seq::empty(),
    }) + (match h.route {
        RouteRule::Direct => Seq::empty(),
        RouteRule::ToNode(n) => be32_bytes(n),
        RouteRule::ToService(s) => be32_bytes(s),
        RouteRule::ToKey(k) => be32_bytes(k),
    })
}

/// What reading a header from `b` gives: the header and its length, or the error.
pub open spec fn decode_header(b: Seq<u8>) -> Result<(TransportMsgHeader, nat), MsgHeaderError> {
    if b.len() < 8 {
        Err(MsgHeaderError::TooSmall)
    } else if b[0] / 64 != 0 {
        Err(MsgHeaderError::InvalidVersion)
    } else {
        let from_bit = (b[0] / 32) % 2 == 1;
        let rt = (b[0] / 8) % 4;
        let ptr: int = if from_bit { 12 } else { 8 };
        if from_bit && b.len() < 12 {
            Err(MsgHeaderError::TooSmall)
        } else if rt != 0 && b.len() < ptr + 4 {
            Err(MsgHeaderError::TooSmall)
        } else {
            let route = if rt == 0 {
                RouteRule::Direct
            } else if rt == 1 {
                RouteRule::ToNode(be32_at(b, ptr))
            } else if rt == 2 {
                RouteRule::ToService(be32_at(b, ptr))
            } else {
                RouteRule::ToKey(be32_at(b, ptr))
            };
            Ok((
                TransportMsgHeader {
                    version: 0,
                    ttl: b[1],
                    from_service_id: b[2],
                    to_service_id: b[3],
                    route,
                    secure: (b[0] / 4) % 2 == 1,
                    meta: b[0] % 4,
                    stream_id: be32_at(b, 4),
                    from_node: if from_bit { Some(be32_at(b, 8)) } else { None },
                },
                (ptr + if rt == 0 { 0int } else { 4 }) as nat,
            ))
        }
    }
}

// ---- byte helpers ---------------------------------------------------------------------------

fn read_be32(b: &[u8], i: usize) -> (r: u32)
    requires
        i + 4 <= b@.len(),
    ensures
        r == be32_at(b@, i as int),
{
    (b[i] as u32) * 16777216 + (b[i + 1] as u32) * 65536 + (b[i + 2] as u32) * 256 + (b[i + 3] as u32)
}

fn write_be32(out: &mut [u8], i: usize, x: u32)
    requires
        i + 4 <= old(out)@.len(),
    ensures
        final(out)@.len() == old(out)@.len(),
        final(out)@.subrange(i as int, i + 4) == be32_bytes(x),
        forall|k: int| 0 <= k < old(out)@.len() && !(i <= k < i + 4) ==> #[trigger] final(out)@[k] == old(out)@[k],
{
    out[i] = (x / 16777216) as u8;
    out[i + 1] = ((x / 65536) % 256) as u8;
    out[i + 2] = ((x / 256) % 256) as u8;
    out[i + 3] = (x % 256) as u8;
    assert(out@.subrange(i as int, i + 4) =~= be32_bytes(x));
}

impl TransportMsgHeader {
    /// A header for a direct, secure message with the default TTL.
    pub fn new() -> (h: Self)
        ensures
            h == (TransportMsgHeader {
                version: 0,
                ttl: DEFAULT_MSG_TTL,
                from_service_id: 0,
                to_service_id: 0,
                route: RouteRule::Direct,
                secure: true,
                meta: 0,
                stream_id: 0,
                from_node: None,
            }),
    {
        Self {
            version: 0,
            ttl: DEFAULT_MSG_TTL,
            from_service_id: 0,
            to_service_id: 0,
            route: RouteRule::Direct,
            secure: true,
            meta: 0,
            stream_id: 0,
            from_node: None,
        }
    }

    /// A secure header with the given services and route and the default TTL.
    pub fn build(from_service_id: u8, to_service_id: u8, route: RouteRule) -> (h: Self)
        ensures
            h == (TransportMsgHeader { from_service_id, to_service_id, route, ..TransportMsgHeader::new_spec() }),
    {
        Self { version: 0, ttl: DEFAULT_MSG_TTL, from_service_id, to_service_id, route, secure: true, meta: 0, stream_id: 0, from_node: None }
    }

    pub open spec fn new_spec() -> TransportMsgHeader {
        TransportMsgHeader {
            version: 0,
            ttl: DEFAULT_MSG_TTL,
            from_service_id: 0,
            to_service_id: 0,
            route: RouteRule::Direct,
            secure: true,
            meta: 0,
            stream_id: 0,
            from_node: None,
        }
    }

    pub fn set_ttl(self, ttl: u8) -> (h: Self)
        ensures
            h == (TransportMsgHeader { ttl, ..self }),
    {
        let mut s = self;
        s.ttl = ttl;
        s
    }

    pub fn set_secure(self, secure: bool) -> (h: Self)
        ensures
            h == (TransportMsgHeader { secure, ..self }),
    {
        let mut s = self;
        s.secure = secure;
        s
    }

    /// Sets the meta, which takes two bits.
    pub fn set_meta(self, meta: u8) -> (h: Self)
        requires
            meta <= 3,
        ensures
            h == (TransportMsgHeader { meta, ..self }),
    {
        let mut s = self;
        s.meta = meta;
        s
    }

    pub fn set_stream_id(self, stream_id: u32) -> (h: Self)
        ensures
            h == (TransportMsgHeader { stream_id, ..self }),
    {
        let mut s = self;
        s.stream_id = stream_id;
        s
    }

    pub fn set_from_node(self, from_node: Option<NodeId>) -> (h: Self)
        ensures
            h == (TransportMsgHeader { from_node, ..self }),
    {
        let mut s = self;
        s.from_node = from_node;
        s
    }

    pub fn set_from_service_id(self, service_id: u8) -> (h: Self)
        ensures
            h == (TransportMsgHeader { from_service_id: service_id, ..self }),
    {
        let mut s = self;
        s.from_service_id = service_id;
        s
    }

    pub fn set_to_service_id(self, service_id: u8) -> (h: Self)
        ensures
            h == (TransportMsgHeader { to_service_id: service_id, ..self }),
    {
        let mut s = self;
        s.to_service_id = service_id;
        s
    }

    pub fn set_route(self, route: RouteRule) -> (h: Self)
        ensures
            h == (TransportMsgHeader { route, ..self }),
    {
        let mut s = self;
        s.route = route;
        s
    }

    /// The number of bytes that the header takes.
    pub fn serialize_size(&self) -> (r: usize)
        ensures
            r == header_len(*self),
    {
        8 + if self.from_node.is_some() {
            4
        } else {
            0
        } + match self.route {
            RouteRule::Direct => 0,
            _ => 4,
        }
    }

    /// Reads a header from the front of `bytes`, and tells how many bytes it took.
    pub fn from_bytes(bytes: &[u8]) -> (r: Result<(Self, usize), MsgHeaderError>)
        ensures
            match (r, decode_header(bytes@)) {
                (Ok((h, n)), Ok((hs, ns))) => h == hs && n == ns,
                (Err(e), Err(es)) => e == es,
                _ => false,
            },
    {
        if bytes.len() < 8 {
            return Err(MsgHeaderError::TooSmall);
        }
        let b0 = bytes[0];
        let version = b0 >> 6;
        let from_bit = (b0 >> 5) & 1 == 1;
        let route_type = (b0 >> 3) & 3;
        let secure = (b0 >> 2) & 1 == 1;
        let meta = b0 & 3;
        proof {
            assert(version == b0 / 64) by (bit_vector)
                requires
                    version == b0 >> 6,
            ;
            assert(from_bit == ((b0 / 32) % 2 == 1)) by (bit_vector)
                requires
                    from_bit == ((b0 >> 5) & 1 == 1),
            ;
            assert(route_type == (b0 / 8) % 4) by (bit_vector)
                requires
                    route_type == (b0 >> 3) & 3,
            ;
            assert(secure == ((b0 / 4) % 2 == 1)) by (bit_vector)
                requires
                    secure == ((b0 >> 2) & 1 == 1),
            ;
            assert(meta == b0 % 4) by (bit_vector)
                requires
                    meta == b0 & 3,
            ;
        }

        if version != 0 {
            return Err(MsgHeaderError::InvalidVersion);
        }

        let ttl = bytes[1];
        let from_service_id = bytes[2];
        let to_service_id = bytes[3];
        let stream_id = read_be32(bytes, 4);

        let mut ptr: usize = 8;

        let from_node = if from_bit {
            if bytes.len() < ptr + 4 {
                return Err(MsgHeaderError::TooSmall);
            }
            let from_node_id = read_be32(bytes, ptr);
            ptr = ptr + 4;
            Some(from_node_id)
        } else {
            None
        };

        let route = if route_type == ROUTE_RULE_DIRECT {
            RouteRule::Direct
        } else if route_type == ROUTE_RULE_TO_NODE {
            if bytes.len() < ptr + 4 {
                return Err(MsgHeaderError::TooSmall);
            }
            let rr = RouteRule::ToNode(read_be32(bytes, ptr));
            ptr = ptr + 4;
            rr
        } else if route_type == ROUTE_RULE_TO_SERVICE {
            if bytes.len() < ptr + 4 {
                return Err(MsgHeaderError::TooSmall);
            }
            let rr = RouteRule::ToService(read_be32(bytes, ptr));
            ptr = ptr + 4;
            rr
        } else if route_type == ROUTE_RULE_TO_KEY {
            if bytes.len() < ptr + 4 {
                return Err(MsgHeaderError::TooSmall);
            }
            let rr = RouteRule::ToKey(read_be32(bytes, ptr));
            ptr = ptr + 4;
            rr
        } else {
            return Err(MsgHeaderError::InvalidRoute);
        };

        let len = 8 + if from_node.is_some() {
            4
        } else {
            0
        } + if route_type == ROUTE_RULE_DIRECT {
            0
        } else {
            4
        };

        Ok((Self { version, ttl, from_service_id, to_service_id, route, secure, meta, stream_id, from_node }, len))
    }

    /// Writes the header at the front of `output` and returns its length; gives `None`,
    /// writing nothing, when `output` is too small.
    pub fn to_bytes(&self, output: &mut [u8]) -> (r: Option<usize>)
        requires
            self.meta <= 3,
        ensures
            old(output)@.len() < header_len(*self) ==> r is None && final(output)@ == old(output)@,
            old(output)@.len() >= header_len(*self) ==> r == Some(header_len(*self) as usize) && final(output)@ == encode_header(*self)
                + old(output)@.skip(header_len(*self) as int),
    {
        if output.len() < self.serialize_size() {
            return None;
        }
        let route_type: u8 = match self.route {
            RouteRule::Direct => ROUTE_RULE_DIRECT,
            RouteRule::ToNode(_) => ROUTE_RULE_TO_NODE,
            RouteRule::ToService(_) => ROUTE_RULE_TO_SERVICE,
            RouteRule::ToKey(_) => ROUTE_RULE_TO_KEY,
        };
        let secure_byte: u8 = if self.secure {
            0b100
        } else {
            0
        };
        let from_flag: u8 = if self.from_node.is_some() {
            1
        } else {
            0
        };
        let v = self.version;
        let m = self.meta;
        let b0 = (v << 6) | (from_flag << 5) | route_type << 3 | secure_byte | m;
        proof {
            assert(b0 == ((v % 4) * 64 + from_flag * 32 + route_type * 8 + secure_byte + m) as u8) by (bit_vector)
                requires
                    b0 == (v << 6) | (from_flag << 5) | route_type << 3 | secure_byte | m,
                    from_flag <= 1,
                    route_type <= 3,
                    secure_byte == 0 || secure_byte == 4,
                    m <= 3,
            ;
            assert(from_flag * 32 == (if self.from_node is Some { 32int } else { 0 }));
            assert(secure_byte == (if self.secure { 4int } else { 0 }));
            assert(route_type == route_code(self.route));
            assert(b0 == first_byte(*self));
        }
        let ghost o0 = output@;
        output[0] = b0;
        output[1] = self.ttl;
        output[2] = self.from_service_id;
        output[3] = self.to_service_id;
        write_be32(output, 4, self.stream_id);
        let mut ptr: usize = 8;
        if let Some(from_node) = self.from_node {
            write_be32(output, ptr, from_node);
            ptr = ptr + 4;
        }
        let ghost mid = output@;
        match self.route {
            RouteRule::Direct => {},
            RouteRule::ToNode(node_id) => {
                write_be32(output, ptr, node_id);
                ptr = ptr + 4;
            },
            RouteRule::ToService(service_meta) => {
                write_be32(output, ptr, service_meta);
                ptr = ptr + 4;
            },
            RouteRule::ToKey(key) => {
                write_be32(output, ptr, key);
                ptr = ptr + 4;
            },
        }
        proof {
            let n = header_len(*self) as int;
            assert(ptr == n);
            assert(output@ =~= encode_header(*self) + o0.skip(n)) by {
                assert(output@.len() == o0.len());
                assert forall|k: int| 0 <= k < output@.len() implies output@[k] == (encode_header(*self) + o0.skip(n))[k] by {
                    if k < 8 {
                        assert(output@[k] == mid[k]);
                    } else if k < 12 && self.from_node is Some {
                        assert(output@[k] == mid[k]);
                        assert(mid[k] == mid.subrange(8, 12)[k - 8]);
                    } else if k < n {
                        let p = n - 4;
                        assert(output@[k] == output@.subrange(p, p + 4)[k - p]);
                    } else {
                        assert(output@[k] == o0[k]);
                    }
                }
            }
        }
        Some(self.serialize_size())
    }
}

} // verus!

verus! {

proof fn lemma_be32_roundtrip(x: u32, b: Seq<u8>, i: int)
    requires
        0 <= i,
        i + 4 <= b.len(),
        b.subrange(i, i + 4) == be32_bytes(x),
    ensures
        be32_at(b, i) == x,
{
    assert(b[i] == be32_bytes(x)[0]);
    assert(b[i + 1] == be32_bytes(x)[1]);
    assert(b[i + 2] == be32_bytes(x)[2]);
    assert(b[i + 3] == be32_bytes(x)[3]);
    let b0: u32 = x / 16777216;
    let b1: u32 = (x / 65536) % 256;
    let b2: u32 = (x / 256) % 256;
    let b3: u32 = x % 256;
    assert(b0 * 16777216 + b1 * 65536 + b2 * 256 + b3 == x) by (bit_vector)
        requires
            b0 == x / 16777216,
            b1 == (x / 65536) % 256,
            b2 == (x / 256) % 256,
            b3 == x % 256,
    ;
    assert(b0 < 256);
}

proof fn lemma_first_byte(h: TransportMsgHeader)
    requires
        h.version == 0,
        h.meta <= 3,
    ensures
        first_byte(h) / 64 == 0,
        ((first_byte(h) / 32) % 2 == 1) == (h.from_node is Some),
        (first_byte(h) / 8) % 4 == route_code(h.route),
        ((first_byte(h) / 4) % 2 == 1) == h.secure,
        first_byte(h) % 4 == h.meta,
{
    let f: u8 = if h.from_node is Some { 1 } else { 0 };
    let c: u8 = route_code(h.route);
    let s: u8 = if h.secure { 1 } else { 0 };
    let m: u8 = h.meta;
    let b: u8 = first_byte(h);
    assert(b as int == f * 32 + c * 8 + s * 4 + m);
    assert(b / 64 == 0 && (b / 32) % 2 == f && (b / 8) % 4 == c && (b / 4) % 2 == s && b % 4 == m) by (bit_vector)
        requires
            b == (f * 32 + c * 8 + s * 4 + m) as u8,
            f <= 1,
            c <= 3,
            s <= 1,
            m <= 3,
    ;
}

/// Reading back a written header gives the same header and its length, whatever follows it,
/// for every header of version 0 whose meta fits in its two bits.
pub proof fn law_header_roundtrip(h: TransportMsgHeader, rest: Seq<u8>)
    requires
        h.version == 0,
        h.meta <= 3,
    ensures
        decode_header(encode_header(h) + rest) == Ok::<(TransportMsgHeader, nat), MsgHeaderError>((h, header_len(h))),
{
    let e = encode_header(h);
    let b = e + rest;
    lemma_first_byte(h);
    assert(b[0] == first_byte(h));
    assert(b[1] == h.ttl && b[2] == h.from_service_id && b[3] == h.to_service_id);
    assert(b.subrange(4, 8) =~= be32_bytes(h.stream_id));
    lemma_be32_roundtrip(h.stream_id, b, 4);
    let ptr: int = if h.from_node is Some { 12 } else { 8 };
    if let Some(n) = h.from_node {
        assert(b.subrange(8, 12) =~= be32_bytes(n));
        lemma_be32_roundtrip(n, b, 8);
    }
    match h.route {
        RouteRule::Direct => {},
        RouteRule::ToNode(n) => {
            assert(b.subrange(ptr, ptr + 4) =~= be32_bytes(n));
            lemma_be32_roundtrip(n, b, ptr);
        },
        RouteRule::ToService(n) => {
            assert(b.subrange(ptr, ptr + 4) =~= be32_bytes(n));
            lemma_be32_roundtrip(n, b, ptr);
        },
        RouteRule::ToKey(n) => {
            assert(b.subrange(ptr, ptr + 4) =~= be32_bytes(n));
            lemma_be32_roundtrip(n, b, ptr);
        },
    }
}

} // verus!

verus! {

impl TransportMsgHeader {
    /// Rewrites the route of an encoded message in place: the route type goes into its two
    /// bits of the first byte and the destination into the destination field, after the
    /// optional sender; the version, sender flag, secure flag, meta, stream id and sender stay.
    /// Gives `None`, writing nothing, for a buffer shorter than the fixed header, a direct
    /// new route, or a message without a destination field (a direct route, or a buffer that
    /// ends before it).
    pub fn rewrite_route(buf: &mut [u8], new_route: RouteRule) -> (r: Option<()>)
        ensures
            match rewrite_spec(old(buf)@, new_route) {
                None => r is None && final(buf)@ == old(buf)@,
                Some(b) => r is Some && final(buf)@ == b,
            },
    {
        if buf.len() < 8 {
            return None;
        }
        let ghost b0 = buf@;
        let value = match new_route {
            RouteRule::Direct => {
                return None;
            },
            RouteRule::ToNode(node_id) => node_id,
            RouteRule::ToService(service_meta) => service_meta,
            RouteRule::ToKey(key) => key,
        };
        let first = buf[0];
        proof {
            assert((first >> 3u8) & 3u8 == (first / 8) % 4 && (first >> 5u8) & 1u8 == (first / 32) % 2) by (bit_vector);
        }
        if (first >> 3u8) & 3u8 == 0 {
            return None;
        }
        let ptr: usize = if (first >> 5u8) & 1u8 == 1 {
            12
        } else {
            8
        };
        if buf.len() < ptr + 4 {
            return None;
        }
        write_be32(buf, ptr, value);
        let route_type: u8 = match new_route {
            RouteRule::Direct => 0,
            RouteRule::ToNode(_) => 1,
            RouteRule::ToService(_) => 2,
            RouteRule::ToKey(_) => 3,
        };
        let updated = (first & 0b1110_0111u8) | (route_type << 3u8);
        proof {
            assert(updated == ((first / 32) * 32 + route_type * 8 + first % 8) as u8) by (bit_vector)
                requires
                    updated == (first & 0b1110_0111u8) | (route_type << 3u8),
                    route_type <= 3,
            ;
        }
        buf[0] = updated;
        proof {
            let p = ptr as int;
            let expected = rewrite_spec(b0, new_route)->Some_0;
            assert(buf@ =~= expected) by {
                assert forall|k: int| 0 <= k < buf@.len() implies buf@[k] == expected[k] by {
                    if p <= k < p + 4 {
                        assert(buf@.subrange(p, p + 4)[k - p] == buf@[k]);
                    }
                }
            }
        }
        Some(())
    }
}

/// The destination a route carries (none for a direct route).
pub open spec fn route_dest(r: RouteRule) -> u32 {
    match r {
        RouteRule::ToNode(n) => n,
        RouteRule::ToService(s) => s,
        RouteRule::ToKey(k) => k,
        RouteRule::Direct => 0,
    }
}

/// The first byte `x` with the route type `code` in its two route bits.
pub open spec fn with_route_code(x: u8, code: u8) -> u8 {
    ((x / 32) * 32 + code * 8 + x % 8) as u8
}

/// What rewriting the route of the encoded message `b` to `new_route` makes of it: the route
/// type in the first byte and the destination in the destination field, everything else kept;
/// nothing when the buffer is shorter than the fixed header, the new route is direct, or the
/// message has no destination field.
pub open spec fn rewrite_spec(b: Seq<u8>, new_route: RouteRule) -> Option<Seq<u8>> {
    if b.len() < 8 || new_route is Direct {
        None
    } else {
        let ptr: int = if (b[0] / 32) % 2 == 1 { 12 } else { 8 };
        if (b[0] / 8) % 4 == 0 || b.len() < ptr + 4 {
            None
        } else {
            Some(b.update(0, with_route_code(b[0], route_code(new_route))).subrange(0, ptr) + be32_bytes(route_dest(new_route)) + b.skip(ptr + 4))
        }
    }
}

proof fn lemma_with_route_code(x: u8, code: u8)
    requires
        code <= 3,
    ensures
        with_route_code(x, code) / 64 == x / 64,
        (with_route_code(x, code) / 32) % 2 == (x / 32) % 2,
        (with_route_code(x, code) / 8) % 4 == code,
        (with_route_code(x, code) / 4) % 2 == (x / 4) % 2,
        with_route_code(x, code) % 4 == x % 4,
{
    let y = with_route_code(x, code);
    assert(y == ((x / 32) * 32 + code * 8 + x % 8) as u8);
    assert(y / 64 == x / 64 && (y / 32) % 2 == (x / 32) % 2 && (y / 8) % 4 == code && (y / 4) % 2 == (x / 4) % 2 && y % 4 == x % 4) by (bit_vector)
        requires
            y == ((x / 32) * 32 + code * 8 + x % 8) as u8,
            code <= 3,
    ;
}

/// A message whose header has a destination, rewritten to another routed destination, reads
/// back with the new route and everything else of its header, with the same length, and the
/// bytes after the header untouched.
pub proof fn law_rewrite_route_reads_back(b: Seq<u8>, new_route: RouteRule)
    requires
        decode_header(b) is Ok,
        !(decode_header(b)->Ok_0.0.route is Direct),
        !(new_route is Direct),
    ensures
        ({
            let (h, n) = decode_header(b)->Ok_0;
            &&& rewrite_spec(b, new_route) is Some
            &&& decode_header(rewrite_spec(b, new_route)->Some_0) == Ok::<(TransportMsgHeader, nat), MsgHeaderError>(
                (TransportMsgHeader { route: new_route, ..h }, n),
            )
            &&& rewrite_spec(b, new_route)->Some_0.skip(n as int) == b.skip(n as int)
        }),
{
    let (h, n) = decode_header(b)->Ok_0;
    let ptr: int = if (b[0] / 32) % 2 == 1 { 12 } else { 8 };
    let code = route_code(new_route);
    lemma_with_route_code(b[0], code);
    let nb = rewrite_spec(b, new_route)->Some_0;
    assert(nb.len() == b.len());
    assert(nb[0] == with_route_code(b[0], code));
    assert(nb[1] == b[1] && nb[2] == b[2] && nb[3] == b[3]);
    assert(nb.subrange(4, 8) =~= b.subrange(4, 8));
    assert(be32_at(nb, 4) == be32_at(b, 4));
    if ptr == 12 {
        assert(be32_at(nb, 8) == be32_at(b, 8));
    }
    assert(nb.subrange(ptr, ptr + 4) =~= be32_bytes(route_dest(new_route)));
    lemma_be32_roundtrip(route_dest(new_route), nb, ptr);
    assert(n == ptr + 4);
    assert(nb.skip(n as int) =~= b.skip(n as int));
    let h2 = TransportMsgHeader { route: new_route, ..h };
    match new_route {
        RouteRule::ToNode(d) => assert(decode_header(nb) == Ok::<(TransportMsgHeader, nat), MsgHeaderError>((h2, n))),
        RouteRule::ToService(d) => assert(decode_header(nb) == Ok::<(TransportMsgHeader, nat), MsgHeaderError>((h2, n))),
        RouteRule::ToKey(d) => assert(decode_header(nb) == Ok::<(TransportMsgHeader, nat), MsgHeaderError>((h2, n))),
        RouteRule::Direct => {},
    }
}

/// A transport message: its encoded bytes, the header they start with, and where the payload
/// begins.
#[derive(Debug, PartialEq, Eq)]
pub struct TransportMsg {
    buffer: Vec<u8>,
    pub header: TransportMsgHeader,
    pub payload_start: usize,
}

impl TransportMsg {
    /// The encoded bytes of the message.
    pub closed spec fn bytes(&self) -> Seq<u8> {
        self.buffer@
    }

    /// The header the message starts with.
    pub closed spec fn hdr(&self) -> TransportMsgHeader {
        self.header
    }

    /// Where the payload begins.
    pub closed spec fn start(&self) -> usize {
        self.payload_start
    }

    /// The payload starts within the message.
    pub closed spec fn wf(&self) -> bool {
        self.payload_start <= self.buffer@.len()
    }

    /// Whether the first byte of an encoded message marks it as secure.
    pub fn is_secure_header(first_byte: u8) -> (r: bool)
        ensures
            r == ((first_byte / 4) % 2 == 1),
    {
        let r = (first_byte >> 2) & 1 == 1;
        proof {
            assert(r == ((first_byte / 4) % 2 == 1)) by (bit_vector)
                requires
                    r == ((first_byte >> 2) & 1 == 1),
            ;
        }
        r
    }

    /// A message made of `header` followed by `payload`.
    pub fn build_raw(header: TransportMsgHeader, payload: &[u8]) -> (m: Self)
        requires
            header.meta <= 3,
            header_len(header) + payload@.len() <= usize::MAX,
        ensures
            m.wf(),
            m.bytes() == encode_header(header) + payload@,
            m.hdr() == header,
            m.start() == header_len(header),
    {
        let header_size = header.serialize_size();
        let mut buffer: Vec<u8> = Vec::new();
        let mut i: usize = 0;
        while i < header_size
            invariant
                i <= header_size,
                buffer@.len() == i,
            decreases header_size - i,
        {
            buffer.push(0);
            i = i + 1;
        }
        let written = header.to_bytes(buffer.as_mut_slice());
        assert(written == Some(header_size));
        assert(buffer@ =~= encode_header(header));
        let mut j: usize = 0;
        while j < payload.len()
            invariant
                j <= payload@.len(),
                buffer@ == encode_header(header) + payload@.take(j as int),
            decreases payload@.len() - j,
        {
            buffer.push(payload[j]);
            assert(payload@.take(j + 1) =~= payload@.take(j as int).push(payload@[j as int]));
            j = j + 1;
        }
        assert(payload@.take(j as int) =~= payload@);
        Self { buffer, header, payload_start: header_size }
    }

    /// A message to `route` between the given services, with the given meta and stream.
    pub fn build(from_service_id: u8, to_service_id: u8, route: RouteRule, meta: u8, stream_id: u32, payload: &[u8]) -> (m: Self)
        requires
            meta <= 3,
            header_len(TransportMsgHeader::new_spec()) + 4 + payload@.len() <= usize::MAX,
        ensures
            m.wf(),
            m.hdr() == (TransportMsgHeader { from_service_id, to_service_id, route, meta, stream_id, ..TransportMsgHeader::new_spec() }),
            m.bytes() == encode_header(m.hdr()) + payload@,
            m.start() == header_len(m.hdr()),
    {
        let header = TransportMsgHeader::new().set_from_service_id(from_service_id).set_to_service_id(to_service_id).set_route(route).set_meta(
            meta,
        ).set_stream_id(stream_id);
        Self::build_raw(header, payload)
    }

    /// The encoded bytes of the message.
    pub fn take(self) -> (r: Vec<u8>)
        ensures
            r@ == self.bytes(),
    {
        self.buffer
    }

    /// Reads a message from its encoded bytes.
    pub fn from_vec(buffer: Vec<u8>) -> (r: Result<Self, MsgHeaderError>)
        ensures
            match (r, decode_header(buffer@)) {
                (Ok(m), Ok((h, n))) => m.wf() && m.bytes() == buffer@ && m.hdr() == h && m.start() == n,
                (Err(e), Err(es)) => e == es,
                _ => false,
            },
    {
        let (header, header_size) = match TransportMsgHeader::from_bytes(buffer.as_slice()) {
            Ok(v) => v,
            Err(e) => {
                return Err(e);
            },
        };
        proof {
            lemma_decoded_len(buffer@);
        }
        Ok(Self { buffer, header, payload_start: header_size })
    }

    /// Reads a message from a copy of `buf`.
    pub fn from_ref(buf: &[u8]) -> (r: Result<Self, MsgHeaderError>)
        ensures
            match (r, decode_header(buf@)) {
                (Ok(m), Ok((h, n))) => m.wf() && m.bytes() == buf@ && m.hdr() == h && m.start() == n,
                (Err(e), Err(es)) => e == es,
                _ => false,
            },
    {
        let (header, header_size) = match TransportMsgHeader::from_bytes(buf) {
            Ok(v) => v,
            Err(e) => {
                return Err(e);
            },
        };
        proof {
            lemma_decoded_len(buf@);
        }
        Ok(Self { buffer: crate::dht_kv::msg::bytes_of(buf), header, payload_start: header_size })
    }

    /// The encoded bytes of the message.
    pub fn get_buf(&self) -> (r: &[u8])
        ensures
            r@ == self.bytes(),
    {
        self.buffer.as_slice()
    }

    /// The payload: the bytes after the header.
    pub fn payload(&self) -> (r: &[u8])
        requires
            self.wf(),
        ensures
            r@ == self.bytes().skip(self.start() as int),
    {
        let s = self.buffer.as_slice();
        let r = &s[self.payload_start..self.buffer.len()];
        assert(r@ =~= self.bytes().skip(self.payload_start as int));
        r
    }

    /// Rewrites the route of the encoded message; see [`TransportMsgHeader::rewrite_route`].
    /// The header kept beside the bytes is not changed.
    pub fn rewrite_route(&mut self, new_route: RouteRule) -> (r: Option<()>)
        ensures
            final(self).hdr() == old(self).hdr(),
            final(self).start() == old(self).start(),
            match rewrite_spec(old(self).bytes(), new_route) {
                None => r is None && final(self).bytes() == old(self).bytes(),
                Some(b) => r is Some && final(self).bytes() == b,
            },
    {
        TransportMsgHeader::rewrite_route(self.buffer.as_mut_slice(), new_route)
    }
}

proof fn lemma_decoded_len(b: Seq<u8>)
    ensures
        decode_header(b) matches Ok((_, n)) ==> n <= b.len(),
{
}

} // verus!
