pub mod api;
pub mod codec;
pub mod config;
pub mod error;
