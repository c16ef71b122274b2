//! The writers that turn a [`Spec`](crate::model::Spec) into the files of a skill.

pub mod naming;
pub mod markdown;
pub mod refs;
pub mod types;
pub mod servers;
pub mod writes;
pub mod extensions;
pub mod manifest;
pub mod auth;
pub mod skill;
pub mod endpoint;
pub mod schema;
pub mod pipeline;
