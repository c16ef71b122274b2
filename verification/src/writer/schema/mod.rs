//! The schema files, and the `jsonc` rendering of schemas that endpoint files embed.

pub mod types;
pub mod composition;
pub mod properties;
pub mod render;
pub mod writer;
