//! System contracts: session keys, shared vaults and the DID registry.
pub mod session_keys;
pub mod shared_vault;
pub mod did_registry;
