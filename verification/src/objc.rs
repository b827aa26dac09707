//! The Objective-C runtime.

pub mod binary;
pub mod binary_laws;
pub mod classes;
pub mod laws;
pub mod link_laws;
pub mod methods;
pub mod names;
pub mod runtime;
pub mod search;
