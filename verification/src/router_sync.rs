//! The router synchronization feature's identifier, what a local actor can ask of it and
//! what it answers.

use vstd::prelude::*;

verus! {

/// The identifier of the router synchronization feature.
pub const FEATURE_ID: u8 = 2;

/// What a local actor asks: a dump of the routing table.
#[derive(Debug, Clone, Copy, PartialEq, Eq, Structural)]
pub enum Control {
    DumpRouter,
}

/// What the feature tells a local actor: the dump of the routing table, of the dump type `D`
/// of the router in use.
#[derive(Debug, PartialEq, Eq)]
pub enum Event<D> {
    DumpRouter(Box<D>),
}

/// What a worker sends to the controller (nothing is ever sent).
pub type ToController = ();

/// The identifier of the router synchronization service.
pub const SERVICE_ID: u8 = 0;

/// The router synchronization service, which does nothing yet.
pub struct RouterSyncService {}

/// The worker side of the router synchronization service, which does nothing yet.
pub struct RouterSyncServiceWorker {}

} // verus!
