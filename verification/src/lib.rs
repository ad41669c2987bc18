//! Sans-I/O engine for cloning the memory of a UV-5R class handheld radio.
//!
//! The radio speaks a small block-transfer protocol over a serial line. This
//! crate holds every decision of that protocol and none of the I/O: each
//! exchange is a state machine that hands its driver one [`machine::Action`]
//! at a time and is told what came of it through a [`machine::Event`].
//!
//! - [`wire`]: the bytes of each frame, and the errors.
//! - [`layout`]: the regions of the device's memory and of an image file.
//! - [`machine`]: actions, events, and what it means to drive a machine.
//! - [`handshake`], [`block`]: the three exchanges of the protocol.
//! - [`dump`], [`upload`]: the two operations built from them.
//! - [`hexdump`]: the text in which blocks are shown on a console.
//!
//! Every machine comes with its transition function over mathematical state
//! and with a theorem that says what a whole conversation comes to as a
//! function of what the radio sends.

pub mod block;
pub mod dump;
pub mod handshake;
pub mod hexdump;
pub mod layout;
pub mod machine;
pub mod upload;
pub mod wire;
