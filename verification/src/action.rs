//! What the pipeline tells its attachment point to do with a packet.

use vstd::prelude::*;

verus! {

/// Interface index of the loopback device, the target of every redirect.
pub const IFINDEX_LO: u32 = 1;

/// The terminal action for one packet.
#[derive(Clone, Copy, Debug, PartialEq, Eq, Structural)]
pub enum Action {
    /// The packet goes on unchanged.
    Pass,
    /// The packet is to be discarded.
    Drop,
    /// The packet's destination was rewritten to loopback; it is to be handed
    /// to the device `ifindex`, to its ingress side where `ingress` is set.
    Redirect { ifindex: u32, ingress: bool },
    /// An address record of the packet was overwritten with zeros; the packet
    /// goes on.
    Neutered,
}

} // verus!
