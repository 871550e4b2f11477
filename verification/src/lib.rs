pub mod buffer_pool;
pub mod config;
pub mod connection;
pub mod handshake;
pub mod helpers;
pub mod pump;
pub mod request;
