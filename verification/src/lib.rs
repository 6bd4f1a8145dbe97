//! A client library for a file relay server: command-line option parsing,
//! request addressing, upload planning and reply decoding.

pub mod cli;
pub mod connection;
pub mod decimal;
pub mod receive;
pub mod relay;
pub mod send_map;
pub mod text;
pub mod transfer;
