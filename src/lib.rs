//! A small C-runtime support layer for hosts without an operating system:
//! a header-tagged heap and a stdio shim that turns console writes into log
//! records. Every failure is reported through an error context, never by
//! halting.

pub mod errno;
pub mod heap;
pub mod stdio;
