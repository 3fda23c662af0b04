//! What the hub promises, said of orders, tasks, records and instants in plain
//! comparisons, and proved of what the operations say they do.
pub mod asking;
pub mod charting;
pub mod funding;
pub mod granting;
pub mod judging;
pub mod keeping;
pub mod listing;
pub mod paying;
pub mod ranking;
pub mod reporting;
pub mod showing;
pub mod signing;
pub mod standing;
pub mod trading;
pub mod watching;
pub mod working;
