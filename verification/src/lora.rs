//! Frames as the radio hands them over.
use vstd::prelude::*;

verus! {

/// The raw bytes of one frame.
pub struct LoraPacket {
    pub data: Vec<u8>,
}

} // verus!
