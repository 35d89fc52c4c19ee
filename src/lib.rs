//! Client and server side of a header-and-body control protocol for a telephony switch.
pub mod actor;
pub mod blocking;
pub mod codec;
pub mod commands;
pub mod correlator;
pub mod error;
pub mod event;
pub mod headers;
pub mod jobs;
pub mod lex;
pub mod parser;
pub mod session;
pub mod text;
