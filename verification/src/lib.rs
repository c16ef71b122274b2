//! Turns an OpenAPI 3.x description into the files of an agent skill.

pub mod text;
pub mod cli;
pub mod loader;
pub mod model;
pub mod json;
pub mod writer;
