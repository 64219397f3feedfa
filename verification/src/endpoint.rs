//! Network addresses as plain numbers.

use vstd::prelude::*;

verus! {

/// An IP address and a UDP port.
#[derive(Clone, Copy, PartialEq, Eq, Debug, Structural)]
pub enum Endpoint {
    /// The address as one number, most significant byte first.
    V4 { octets: u32, port: u16 },
    V6 { segments: u128, port: u16, flowinfo: u32, scope_id: u32 },
}

} // verus!
