//! Bridges Art-Net lighting frames and scene positions to a Pixelblaze.
//!
//! The crate holds the decisions of the bridge: which variables a frame of
//! channel intensities changes, how those variables are named, which commands
//! follow from a packet and in which order. Sockets, floating point and the
//! rendering of messages are left to the program around it.

pub mod artnet;
pub mod companion;
pub mod dispatch;
pub mod endpoint;
pub mod names;
pub mod numerals;
pub mod position;
pub mod variables;
