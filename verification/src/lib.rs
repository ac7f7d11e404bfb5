//! The call logic of a peer-to-peer voice program: ring buffers of samples, the two
//! halves of an audio channel with their packet framing, the set-up of a call, and the
//! state behind the window.
//!
//! Floating-point values never enter this crate as numbers. A sample, a decibel
//! reading, a latency or an effect parameter crosses it as the IEEE 754 bit pattern of
//! the single-precision value, in a `u32`.

pub mod audio;
pub mod call_laws;
pub mod channel_laws;
pub mod identity;
pub mod mixer;
pub mod ring;
pub mod server;
pub mod settings;
pub mod ui;
pub mod wire;
