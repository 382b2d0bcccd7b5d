pub mod escrow;
pub mod router;
pub mod paymaster;
pub mod payable_demo;
