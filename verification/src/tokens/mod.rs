pub mod erc1155;
pub mod erc20;
pub mod erc721;
pub mod erc8004;
