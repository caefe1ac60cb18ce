//! TFTP (RFC 1350) read-request service: the wire codec, the per-session
//! transfer state machine, and the server configuration handle.

pub mod packet;
pub mod server;
pub mod state;
