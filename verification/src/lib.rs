pub mod config;
pub mod handler;
pub mod ipc;
pub mod laws;
pub mod monitor;
pub mod registry;
pub mod text;
pub mod types;
