//! State and rules of a task-marketplace hub.
pub mod admin;
pub mod api;
pub mod auth;
pub mod board;
pub mod clock;
pub mod double;
pub mod escrow_key;
pub mod faucet_pow;
pub mod held;
pub mod laws;
pub mod market;
pub mod seqs;
pub mod series;
pub mod settlement;
pub mod sort;
pub mod table;
pub mod tags;
pub mod text;
pub mod types;
pub mod wallet;
pub mod wide;
