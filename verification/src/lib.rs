pub mod cli;
pub mod diff;
pub mod engine;
pub mod error;
pub mod fabric;
pub mod keys;
pub mod mount;
pub mod registry;
pub mod server;
pub mod state;
pub mod strmap;
pub mod text;
pub mod trusted;
pub mod util;
