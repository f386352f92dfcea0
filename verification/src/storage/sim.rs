use vstd::prelude::*;

use crate::rng::SimRng;
use crate::storage::Storage;

verus! {

/// The storage of a simulated node: it keeps nothing, gives back nothing
/// and is always done.
pub struct SimStorage {
    rng: SimRng,
}

impl SimStorage {
    /// The generator that the sink holds.
    pub closed spec fn generator(&self) -> SimRng {
        self.rng
    }

    /// A sink that holds on to the generator it is given and to nothing
    /// else.
    pub fn build(rng: SimRng) -> (storage: SimStorage)
        ensures
            storage.generator() == rng,
    {
        SimStorage { rng }
    }
}

impl Storage for SimStorage {
    /// Drops `data`: the sink is as it was.
    fn write(&mut self, data: String)
        ensures
            *final(self) == *old(self),
    {
    }

    /// The empty text; the sink is as it was.
    fn read(&mut self) -> (data: String)
        ensures
            data@ == Seq::<char>::empty(),
            *final(self) == *old(self),
    {
        String::new()
    }

    /// Nothing is ever pending; the sink is as it was.
    fn poll(&mut self) -> (ready: bool)
        ensures
            ready,
            *final(self) == *old(self),
    {
        true
    }
}

} // verus!
