//! Dice expressions such as `2D20` and the random draws that roll them.

pub mod dices;
pub mod throw;
pub mod command;
