//! Built-in plugins: what clients see while the backend is unreachable.

pub mod bedrock_offline;
pub mod handshake_laws;
pub mod minecraft_offline;
pub mod raknet;
pub mod slp_laws;
pub mod wire_laws;
