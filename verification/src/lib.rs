//! Encoder and decoder for the on-air packet format of a LoRa mesh network.
//!
//! [`meshtastic::packet`] reads and writes the fixed packet header,
//! [`meshtastic::channel`] computes the one-byte channel fingerprint, and
//! [`meshtastic::encryption`] turns pre-shared keys into AES keys and applies
//! the per-packet counter-mode keystream.
pub mod lora;
pub mod meshtastic;
