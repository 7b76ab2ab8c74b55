pub mod admin;
pub mod constants;
pub mod contract;
pub mod counting;
pub mod disputes;
pub mod errors;
pub mod events;
pub mod funding;
pub mod invoice;
pub mod laws;
pub mod lifecycle;
pub mod multisig;
pub mod nft;
pub mod oracle;
pub mod rate_logic;
pub mod settlement;
pub mod reputation;
pub mod storage;
pub mod top_payers;
pub mod views;
