//! Conway's Game of Life on a fixed-size grid with hard boundaries,
//! together with the software pixel buffer it is rendered into: colors,
//! their packed pixel form, the board and its seeding, neighbor counting
//! and the B3/S23 simulation step. Window presentation and raster-image
//! decoding are left to callers, which hand plain pixel values in and
//! take packed buffers out.

pub mod board;
pub mod color;
pub mod framebuffer;
pub mod life;
