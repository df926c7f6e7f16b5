//! Decision logic of the `amanda-watch` process monitor: what a process reading holds,
//! which processes a filter keeps, how they are ordered, and which alerts fire.

pub mod alert;
pub mod filter;
pub mod monitor;
pub mod output;
pub mod view;
