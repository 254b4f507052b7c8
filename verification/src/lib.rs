//! The verified core of a directory-backup protocol: length-prefixed framing
//! over a byte stream, a deterministic binary message codec, the client-side
//! transfer driver, and the server-side per-connection reconstruction state
//! machine, together with the laws that relate them (message round-trip,
//! reconstruction fidelity, digest agreement, directory idempotence, session
//! termination, and isolation of concurrent sessions).
pub mod bytes;
pub mod client;
pub mod config;
pub mod digest;
pub mod file;
pub mod framer;
pub mod laws;
pub mod packet;
pub mod server;
pub mod sync_message;
