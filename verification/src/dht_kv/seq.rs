use vstd::prelude::*;

use super::msg::DhtSeq;

verus! {

/// Generates increasing sequence numbers, starting at zero.
pub struct SeqGenerator {
    current: u64,
}

impl Default for SeqGenerator {
    fn default() -> (g: Self)
        ensures
            g.current_spec() == 0,
    {
        SeqGenerator::new()
    }
}

impl SeqGenerator {
    pub closed spec fn current_spec(&self) -> u64 {
        self.current
    }

    pub fn new() -> (g: Self)
        ensures
            g.current_spec() == 0,
    {
        SeqGenerator { current: 0 }
    }

    /// Returns the current number and advances the generator by one.
    pub fn next(&mut self) -> (s: DhtSeq)
        requires
            old(self).current_spec() < u64::MAX,
        ensures
            s.0 == old(self).current_spec(),
            final(self).current_spec() == old(self).current_spec() + 1,
    {
        let ret = self.current;
        self.current = self.current + 1;
        DhtSeq(ret)
    }
}

} // verus!
