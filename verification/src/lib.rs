//! SpaceKit standard library contracts with verified logic.

pub mod codec;
pub mod error;
pub mod utf8;
pub mod text;
pub mod wire;
pub mod store;
pub mod host;
pub mod tokens;
pub mod spacetime;
pub mod payments;
pub mod scores;
pub mod reputation;
pub mod access;
pub mod hello_world;
pub mod tube;
pub mod agents;
pub mod crypto;
pub mod marketplace;
pub mod app_store;
pub mod system;
pub mod arena;
pub mod compression;
