//! An interactive line-oriented TCP client: a prompt with persistent
//! history in the foreground, and a printer for inbound bytes - raw, or
//! rendered as a stream of JSON values - in the background.

pub mod args;
pub mod history;
pub mod jsonmode;
pub mod lines;
pub mod raw;
pub mod session;
