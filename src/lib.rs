//! An in-memory key-value server speaking the RESP wire format, with
//! primary/replica replication.  The codec, command decoder, store, command
//! dispatcher and replica handshake are verified; sockets and tasks live
//! outside this crate.
pub mod buffer;
pub mod cli;
pub mod command;
pub mod decode;
pub mod dispatch;
pub mod handshake;
pub mod laws;
pub mod parser;
pub mod replication;
pub mod resp;
pub mod server;
pub mod store;
