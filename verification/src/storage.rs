use vstd::prelude::*;

pub mod sim;

verus! {

/// A sink to which a node hands what it wants kept. The node never looks
/// inside.
pub trait Storage {
    /// Hands `data` to the sink.
    fn write(&mut self, data: String);

    /// What the sink gives back.
    fn read(&mut self) -> String;

    /// Whether the sink has finished all that it was handed.
    fn poll(&mut self) -> bool;
}

} // verus!
