//! What the transport layer reports about connections.

use vstd::prelude::*;

verus! {

/// Measurements of a connection.
#[derive(Debug, Clone, Copy, PartialEq, Eq, Structural)]
pub struct ConnectionStats {
    pub rtt_ms: u16,
    pub sending_kbps: u32,
    pub send_est_kbps: u32,
    pub loss_percent: u32,
    pub over_use: bool,
}

/// Why a connection was refused.
#[derive(Debug, Clone, PartialEq, Eq)]
pub enum ConnectionRejectReason {
    ConnectionLimited,
    ValidateError,
    Custom(String),
}

/// Accepts or refuses an incoming connection.
pub trait ConnectionAcceptor {
    fn accept(&self);
    fn reject(&self, err: ConnectionRejectReason);
}

/// Why an outgoing connection could not be made.
#[derive(Debug, Clone, PartialEq, Eq)]
pub enum OutgoingConnectionError {
    TooManyConnection,
    AuthenticationError,
    UnsupportedProtocol,
    DestinationNotFound,
    BehaviorRejected(ConnectionRejectReason),
}

/// A request to a mocked RPC transport: the service id and the request.
pub enum MockTransportRpcInput<Req> {
    Req(u8, Req),
}

/// An answer of a mocked RPC transport: the response, or an error code and message.
pub enum MockTransportRpcOutput<Res> {
    Answer(Result<Res, (u32, String)>),
}

/// A failure of the network plane.
#[derive(Debug, Clone, Copy, PartialEq, Eq, Structural)]
pub enum NetworkPlaneError {
    TransportError,
    InternalQueueError,
    RuntimeError,
}

/// A failure inside the network plane.
#[derive(Debug, Clone, Copy, PartialEq, Eq, Structural)]
pub enum PlaneInternalError {
    InvalidServiceId(u8),
}

} // verus!
