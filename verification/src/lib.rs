//! Firmware upload over a serial boot-loader link.
//!
//! The crate has two halves. `firmware` turns an Intel HEX document into a
//! flat image (load address, size, bytes). `command` drives the boot loader's
//! command/response protocol over a byte transport (`com_port`), `script`
//! says what it is for a command to have run, and `com` keeps a session to
//! the fixed order of the protocol's steps.

pub mod com;
pub mod com_port;
pub mod command;
pub mod firmware;
pub mod script;
