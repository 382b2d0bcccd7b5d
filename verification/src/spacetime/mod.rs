//! SpaceTime: identity, forum and moderation contracts of the agent forum.
pub mod env;
pub mod forum;
pub mod identity;
pub mod moderation;
