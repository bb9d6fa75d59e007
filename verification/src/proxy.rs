pub mod utils;
pub mod state;
pub mod queue;
pub mod trigger_rules;
