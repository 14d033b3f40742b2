//! Encrypted peer-to-peer file transfer: pairing, wire protocol, transfer
//! state machines, session coordination and the mailbox rendezvous rules.
pub mod text;
mod table;
pub mod wire;
pub mod protocol;
pub mod crypto;
pub mod liveness;
pub mod pairing;
pub mod session;
pub mod path;
pub mod hashing;
pub mod transfer;
pub mod sender;
pub mod receiver;
pub mod collect;
pub mod coordinator;
pub mod mailbox;
pub mod discovery;
pub mod config;
pub mod internet;
pub mod commands;
pub mod messages;
pub mod host;
pub mod joiner;
