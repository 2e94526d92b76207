//! Controllers that rebalance the species between generations.

pub mod replacement_controller;
pub mod varied_size_controller;
