//! Where and how a window's result goes out: one byte, to a fixed multicast
//! group.

use vstd::prelude::*;

verus! {

/// The multicast group every result is sent to.
pub const MULTICAST_GROUP: [u8; 4] = [224, 0, 0, 1];

/// The port every result is sent to.
pub const MULTICAST_PORT: u16 = 5000;

/// The datagram that carries `result`: the byte itself, with no framing.
pub fn payload(result: u8) -> (bytes: [u8; 1])
    ensures
        bytes@ == seq![result],
{
    let bytes: [u8; 1] = [result];
    assert(bytes@ =~= seq![result]);
    bytes
}

} // verus!
