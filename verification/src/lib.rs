//! Protocol engine for uploading a firmware image to a board over a serial
//! link: the 16-bit checksum, SLIP framing, the DFU control packets, the
//! sequence-number handshake and the policy for trying candidate ports.
//!
//! The library performs no I/O. Everything that touches a device is phrased
//! as an action handed to the caller, who reports back what happened.

pub mod crc;
pub mod error;
pub mod slip;
pub mod selector;
pub mod action;
pub mod serial;
pub mod upload;
