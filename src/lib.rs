//! The game-of-life engine behind a 5×5 LED matrix: the generation step, the stall
//! test, random reseeding and complementing, and the per-frame button and stall policy.

pub mod control;
pub mod grid;
pub mod life;
pub mod random;
