//! Position evaluation and move selection for a backgammon-family dice game:
//! exact outcome distributions, greedy move choice, and exhaustive rollouts.
pub mod board;
pub mod evaluator;
pub mod game_result;
pub mod probabilities;
mod random;
pub mod rollout;
pub mod selection;
