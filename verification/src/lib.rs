//! What your coding agents left running, and why.
//!
//! Every module here is pure: the system is read and changed by the program
//! around the library, which hands over plain values and performs what the
//! library decides.

pub mod actions;
pub mod barman;
pub mod bytes;
pub mod classify;
pub mod cli;
pub mod config;
pub mod demo;
pub mod digest;
pub mod json;
pub mod mcp;
pub mod model;
pub mod output;
pub mod path;
pub mod platform;
pub mod ports;
pub mod random;
pub mod replies;
pub mod runner;
pub mod scanner;
pub mod server;
pub mod sorting;
pub mod source;
pub mod stamp;
pub mod text;
pub mod time;
pub mod why;
pub mod written;
