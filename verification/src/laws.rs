//! What the operations are for, stated of their inputs and results.

pub mod command_line;
pub mod counting;
pub mod deleting;
pub mod numbers;
pub mod paths;
pub mod patterns;
pub mod reports;
pub mod running;
pub mod summaries;
pub mod walking;
