//! The verified core of a high-level emulator for early iPhone OS apps: guest
//! memory, the Objective-C class tables, the `printf`/`scanf` family, `errno`,
//! the guest console, OpenGL ES bookkeeping, touch dispatch and audio playback.
#![allow(non_snake_case)]
#![allow(non_camel_case_types)]
#![allow(non_upper_case_globals)]

pub mod mem;
pub mod abi;
pub mod environment;
pub mod frameworks;
pub mod guest_console;
pub mod libc;
pub mod objc;
