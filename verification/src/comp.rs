//! Entity components.
pub mod lookat;
pub mod name;
