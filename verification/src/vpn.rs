//! The VPN feature when it carries no traffic: it only records its shutdown.

use vstd::prelude::*;

verus! {

/// The identifier of the VPN feature.
pub const FEATURE_ID: u8 = 3;

/// What the controller sends to the workers (nothing is ever sent).
#[derive(Debug, Clone, Copy, PartialEq, Eq, Structural)]
pub struct ToWorker;

/// What a worker sends to the controller (nothing is ever sent).
#[derive(Debug, Clone, Copy, PartialEq, Eq, Structural)]
pub struct ToController;

/// The VPN feature.
pub struct VpnFeature {
    shutdown: bool,
}

impl VpnFeature {
    pub closed spec fn is_shut_down(&self) -> bool {
        self.shutdown
    }

    pub fn new() -> (r: Self)
        ensures
            !r.is_shut_down(),
    {
        VpnFeature { shutdown: false }
    }

    pub fn on_shutdown(&mut self)
        ensures
            final(self).is_shut_down(),
    {
        self.shutdown = true;
    }

    /// Done once shut down.
    pub fn is_empty(&self) -> (r: bool)
        ensures
            r == self.is_shut_down(),
    {
        self.shutdown
    }

    /// There is never an output.
    pub fn pop_output(&mut self) -> (r: Option<()>)
        ensures
            r is None,
            final(self).is_shut_down() == old(self).is_shut_down(),
    {
        None
    }
}

/// The VPN feature on a worker, when it carries no traffic: it takes every input without
/// effect and only records its shutdown.
pub struct VpnFeatureWorker {
    shutdown: bool,
}

impl VpnFeatureWorker {
    pub closed spec fn is_shut_down(&self) -> bool {
        self.shutdown
    }

    pub fn new() -> (r: Self)
        ensures
            !r.is_shut_down(),
    {
        VpnFeatureWorker { shutdown: false }
    }

    /// A packet from the network is dropped.
    pub fn process_udp(&mut self, _pkt: Vec<u8>)
        ensures
            final(self).is_shut_down() == old(self).is_shut_down(),
    {
    }

    pub fn on_shutdown(&mut self)
        ensures
            final(self).is_shut_down(),
    {
        self.shutdown = true;
    }

    /// Done once shut down.
    pub fn is_empty(&self) -> (r: bool)
        ensures
            r == self.is_shut_down(),
    {
        self.shutdown
    }

    /// There is never an output.
    pub fn pop_output(&mut self) -> (r: Option<()>)
        ensures
            r is None,
            final(self).is_shut_down() == old(self).is_shut_down(),
    {
        None
    }
}

/// Turns a packet read from the tunnel into one to write back to it: on Linux the protocol
/// field of the packet information header becomes IPv4 (0x0800).
pub fn rewrite_tun_pkt(payload: &mut [u8])
    requires
        old(payload)@.len() >= 4,
    ensures
        final(payload)@ == old(payload)@.update(2, 8).update(3, 0),
{
    payload[2] = 8;
    payload[3] = 0;
}

} // verus!
