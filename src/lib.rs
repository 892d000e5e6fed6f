//! A grid-based snake simulation: a player snake, autonomous wrap-around
//! snakes, per-level obstacle fields, food, and the score / level state
//! machine, with every rule stated as a contract.

pub mod snake;
pub mod game;
mod random;
