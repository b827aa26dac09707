//! The C standard library of the guest.

pub mod errno;
pub mod stdio;
