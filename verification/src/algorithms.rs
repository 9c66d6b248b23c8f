//! The search algorithms.

pub mod candidates;
pub mod choice;
pub mod expectimax;
pub mod minimax;
pub mod pruning;
pub mod scan;
