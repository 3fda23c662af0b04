//! What the hub's clients see: requests, answers, and the rules between them.
pub mod confirming;
pub mod dtos;
pub mod errors;
pub mod faucet;
pub mod listings;
pub mod names;
pub mod posting;
pub mod ranking;
pub mod requests;
pub mod withdrawals;
pub mod working;
