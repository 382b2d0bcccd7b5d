//! The app store: app listings with NFT licenses, and the license NFT
//! contract that each app gets.
pub mod listing;
pub mod license_nft;
