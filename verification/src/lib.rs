pub mod block;
pub mod common;
pub mod connection;
pub mod enums;
pub mod chunk;
pub mod models;
pub mod nbt;
pub mod region;
pub mod status;
pub mod packets;
pub mod text;
pub mod utils;
pub mod version;
