//! The session bridge and sync engine of a desktop client for a self-hosted
//! chat relay.
//!
//! The library decides and the program around it acts. It says which
//! requests to send and reads what came back (`api`), holds the table of
//! cached conversations (`storage`), keeps the book of background tasks
//! (`utils`) and puts the three together for a load or a creation of
//! conversations (`sync`). It opens no socket and no file: requests and
//! responses, rows and times pass through its functions as plain values.

pub mod api;
pub mod app;
pub mod document;
pub mod seqs;
pub mod storage;
pub mod sync;
pub mod text;
pub mod utils;
