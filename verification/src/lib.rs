//! Verified core of a terminal system monitor: the data model, the process
//! table ordering, the traffic-rate bookkeeping, the text formatting of sizes
//! and durations, and the decisions that the interactive front end takes.

pub mod control;
pub mod models;
pub mod network;
pub mod order;
pub mod process;
pub mod text;
pub mod ui;
