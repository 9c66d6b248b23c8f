//! Game-tree search for finite, turn-based games of perfect information.
//!
//! A game is anything that implements [`GameState`]: a position says whose
//! turn it is and which position an action leads to. Two searches recommend
//! an action to the agent whose turn it is:
//!
//! - [`minimax`] for games in which every agent either maximizes or minimizes
//!   the utility of the outcome. It prunes with alpha and beta bounds and is
//!   proved to return what the exhaustive search returns.
//! - [`expectimax`] for games in which some agents move at random. The
//!   position of such an agent is worth the average over its legal actions.
//!
//! Both take the depth to search to, a function that scores a position, and a
//! function that tells the role of an agent. What they return is specified by
//! the functions `minimax_outcome` and `expectimax_outcome`.

pub mod algorithms;
pub mod callbacks;
pub mod enumeration;
pub mod order;
pub mod traits;
pub mod utility;

pub use algorithms::expectimax::{expectimax, expectimax_over, ExpectimaxAgentType};
pub use algorithms::minimax::{minimax, minimax_over};
pub use traits::GameState;
pub use utility::ChanceUtility;
