//! Decision logic of a Discord counting proxy: parsing of counting messages,
//! the per-channel counting state, the reaction queue and the trigger rules.
pub mod text;
pub mod number;
pub mod entropy;
pub mod models;
pub mod proxy;
pub mod config;
