//! Local file sharing between devices on the same network: address
//! handling, device discovery plans, the file server's request handling and
//! the approval of incoming connections and transfers.

pub mod text;
pub mod ip;
pub mod platform;
pub mod network;
pub mod store;
pub mod server;
pub mod client;
pub mod commands;
