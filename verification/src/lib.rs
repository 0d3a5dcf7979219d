//! The Lazybones extension SDK: the host↔sidecar control wire (framing, message shapes, the `init`
//! handshake and the serve loop's decisions), the WIT world gate, the sidecar's callback
//! configuration and errors, and the developer CLI's command parsing.

pub mod call_error;
pub mod client;
pub mod command;
pub mod config;
pub mod frame;
pub mod handshake;
pub mod serve;
pub mod text;
pub mod wire;
pub mod world;
