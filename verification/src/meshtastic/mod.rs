//! The mesh protocol: header codec, channel fingerprint and payload cipher.
use vstd::prelude::*;

pub mod channel;
pub mod encryption;
pub mod little_endian;
pub mod packet;

verus! {

/// The sum of `left` and `right`.
pub fn add(left: u64, right: u64) -> (sum: u64)
    requires
        left + right <= u64::MAX,
    ensures
        sum == left + right,
{
    left + right
}

/// Something that puts a frame on the air.
pub trait LoraTransmitter {
    fn transmit(&self, packet: &[u8]);
}

/// Something that keeps what is known of channels and nodes.
pub trait MeshtasticDB {
}

/// A node of the mesh: a transmitter and a store.
pub struct Meshtastic {
    tx: Box<dyn LoraTransmitter>,
    db: Box<dyn MeshtasticDB>,
}

} // verus!
