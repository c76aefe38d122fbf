//! A grid raycasting engine for a first-person maze, in 16.16 fixed-point
//! arithmetic.
//!
//! The engine computes and never draws. A frame (`frame`) is made of what
//! it lays out: the background (`framebuffer`), one strip of wall per
//! screen column (`caster`), the sprites from the farthest to the nearest
//! (`sprite`), and the map overlay (`framebuffer`). Between frames the
//! player moves through the grid (`player`, `maze`).
//!
//! The engine holds no floating-point numbers (`fixed`). Sines and cosines
//! come from the caller, as 16.16 numbers.

pub mod fixed;
pub mod maze;
pub mod caster;
pub mod framebuffer;
pub mod sprite;
pub mod player;
pub mod frame;
