//! The frameworks of the guest's system.

pub mod avfoundation;
pub mod opengl_laws;
pub mod opengles;
pub mod uikit;
