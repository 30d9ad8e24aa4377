use vstd::prelude::*;

verus! {

/// A payload addressed to or from one endpoint.
///
/// An endpoint is named by a number that the transport assigns to it.
#[derive(Clone, Debug, PartialEq, Eq)]
pub struct Packet {
    pub address: u64,
    pub payload: Vec<u8>,
}

impl Packet {
    /// A packet for `address` that carries `payload`.
    pub fn new(address: u64, payload: Vec<u8>) -> (r: Packet)
        ensures
            r.address == address,
            r.payload@ == payload@,
    {
        Packet { address, payload }
    }

    /// A packet of a connection with a single endpoint, which is numbered zero.
    pub fn new_raw(payload: Vec<u8>) -> (r: Packet)
        ensures
            r.address == 0,
            r.payload@ == payload@,
    {
        Packet { address: 0, payload }
    }

    /// The endpoint of this packet.
    pub fn address(&self) -> (r: u64)
        ensures
            r == self.address,
    {
        self.address
    }

    /// The bytes this packet carries.
    pub fn payload(&self) -> (r: &[u8])
        ensures
            r@ == self.payload@,
    {
        self.payload.as_slice()
    }
}

} // verus!
