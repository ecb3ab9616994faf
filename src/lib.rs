//! Narrow-phase 2D collision detection on integer world coordinates.
//!
//! Shapes are points, circles and axis-aligned rectangles. The library
//! answers three questions about a pair of them: do they overlap now, by
//! which shortest push can the first be moved out of the second, and how far
//! along a straight step does the first one travel before it touches the
//! second.
//!
//! Coordinates are integers so that every answer is exact: a time of impact
//! is a fraction, a unit normal is held in fixed point (`NORMAL_SCALE`
//! stands for length one), and where a square root comes in it is rounded in
//! the direction stated by the function that takes it.
pub mod math;
pub mod shape;
pub mod overlap;
pub mod resolve;
pub mod sweep;
pub mod segment;
pub mod sample;
