//! Scripted sessions against a remote process whose output is an unframed
//! byte stream.
//!
//! The crate decides, from the bytes and idle signals a host loop reports,
//! where one turn of remote output ends, and sequences a transaction of
//! "wait for output, send input" cycles on top of that decision. All of it is
//! written as state machines: the host performs the reads and writes a
//! machine asks for and hands back what happened.

pub mod chunk;
pub mod error;
pub mod fanout;
pub mod lines;
pub mod policy;
pub mod ssh;
pub mod transaction;
pub mod util;
