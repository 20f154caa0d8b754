//! The lazy key-value feature: its messages and an inactive feature that takes no input
//! and gives no output.

use vstd::prelude::*;

use crate::types::{FeatureControlActor, NodeId, ServiceId};

verus! {

/// The identifier of the lazy key-value feature.
pub const FEATURE_ID: u8 = 4;

/// What a local actor asks of the lazy key-value store.
#[derive(Debug, Clone, PartialEq, Eq)]
pub enum Control {
    SetValue(u64, Vec<u8>),
    Get(u64),
    Del(u64),
}

/// Why a read failed.
#[derive(Debug, Clone, Copy, PartialEq, Eq, Structural)]
pub enum LazyKvError {
    Timeout,
}

/// The result of a read: the value and the node that holds it.
#[derive(Debug, PartialEq, Eq)]
pub enum Event {
    Result(u64, Result<(Vec<u8>, NodeId), LazyKvError>),
}

/// Where a key is known to be: on this node, or at a hinted node.
pub struct Slot {
    pub local: bool,
    pub hint: Option<NodeId>,
}

/// The lazy key-value feature on the controller: it keeps no slot, takes no input and gives
/// no output.
pub struct LazyKvFeature {
    slots: Vec<((ServiceId, u64), Slot)>,
}

impl LazyKvFeature {
    pub fn new() -> (r: Self)
        ensures
            r.slot_count() == 0,
    {
        LazyKvFeature { slots: Vec::new() }
    }

    pub closed spec fn slot_count(&self) -> nat {
        self.slots@.len()
    }

    pub fn feature_type(&self) -> (r: u8)
        ensures
            r == FEATURE_ID,
    {
        FEATURE_ID
    }

    /// An input is ignored.
    pub fn on_input(&mut self, _now_ms: u64, _actor: FeatureControlActor, _control: Control)
        ensures
            final(self).slot_count() == old(self).slot_count(),
    {
    }

    /// There is never an output.
    pub fn pop_output(&mut self) -> (r: Option<Event>)
        ensures
            r is None,
            final(self).slot_count() == old(self).slot_count(),
    {
        None
    }
}

/// The lazy key-value feature on a worker.
pub struct LazyKvFeatureWorker {}

impl LazyKvFeatureWorker {
    pub fn feature_type(&self) -> (r: u8)
        ensures
            r == FEATURE_ID,
    {
        FEATURE_ID
    }
}

} // verus!
