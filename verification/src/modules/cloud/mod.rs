//! Cloud resource modules.
pub mod kubernetes;
