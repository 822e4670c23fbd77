//! Decoder for a game-replay container format: a byte cursor with
//! little-endian primitive reads, the format's signed-length string
//! encoding, and a chunk-dispatch parser that turns a replay buffer into
//! session metadata, a versioned header, and in-match event records.
pub mod crypto;
pub mod err;
pub mod hex;
pub mod parser;
pub mod reader;
pub mod text;
pub mod version;
