//! A chat service: clients register a name, broadcast messages, whisper to one
//! another, send files and list who is online, over TCP or UDP.
pub mod text;
pub mod roster;
pub mod protocol;
pub mod server;
pub mod udp;
pub mod client;
pub mod launch;
