//! A channel handle, kept for the per-channel logic; it holds nothing yet and produces no output.

use vstd::prelude::*;

use super::msg::PubsubMessage;
use super::ChannelControl;

verus! {

/// An output of a channel; none is ever produced.
pub struct ChannelOutput {}

/// A channel handle.
pub struct Channel {}

impl Channel {
    /// Periodic work: there is none.
    pub fn on_tick(&mut self, now: u64)
        ensures
            *final(self) == *old(self),
    {
    }

    /// A control of a local actor: it is ignored.
    pub fn on_control(&mut self, now: u64, control: ChannelControl)
        ensures
            *final(self) == *old(self),
    {
    }

    /// A message from a neighbour: it is ignored.
    pub fn on_remote(&mut self, now: u64, msg: PubsubMessage)
        ensures
            *final(self) == *old(self),
    {
    }

    /// The next output: there is never one.
    pub fn pop_output(&mut self) -> (r: Option<ChannelOutput>)
        ensures
            r is None,
            *final(self) == *old(self),
    {
        None
    }
}

} // verus!
