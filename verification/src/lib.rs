//! Transport-agnostic, multiplexed connection protocol core, with the
//! supporting subsystems of the client it serves.
//!
//! The heart is a connection layer that lets two participants exchange
//! ordered, reliability-tagged streams over interchangeable transports: a
//! byte-oriented stream socket, or an in-process message channel used for
//! local connections.  The protocol state machines here are synchronous and
//! transport-free: a driver (an async runtime, or a test harness) moves the
//! produced chunks between the two sides and feeds back what arrived, and
//! every decision — framing, handshake, multiplexing, budgeted flushing,
//! accept-loop reactions, rendezvous — is made and verified here.
//!
//! Around it stand the smaller subsystems of the same client: the asset
//! cache and its typed loaders, directory handles over the asset source,
//! localization with reference-language fallback, the main menu's control
//! logic, and a batching tracer.
pub mod assets;
pub mod channel;
pub mod dirs;
pub mod frame;
pub mod handshake;
pub mod i18n;
pub mod inproc;
pub mod laws;
pub mod listener;
pub mod menu;
pub mod recv;
pub mod send;
pub mod types;
pub mod util;
