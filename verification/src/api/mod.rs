//! The remote session client: its data, its requests and what it makes of the
//! server's answers.

pub mod client;
pub mod error;
pub mod events;
pub mod http;
pub mod models;
pub mod probe;
