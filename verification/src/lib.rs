//! A relay for chat messages and file transfers between connected peers:
//! the frame codec, the file chunker and assembler, the peer registry and
//! the per-connection state machine, without any I/O of their own.

pub mod assembler;
pub mod bytes;
pub mod chunker;
pub mod codec;
pub mod decimal;
pub mod digest;
pub mod filename;
pub mod frame;
pub mod handler;
pub mod membership;
pub mod packet;
pub mod reader;
pub mod registry;
pub mod roundtrip;
pub mod sender;
pub mod server;
pub mod text;
pub mod transfer;
pub mod wire;
