//! A verified core for Conway's Game of Life on a fixed-size rectangular
//! grid: a dense board of alive/dead cells, each carrying a cosmetic
//! intensity byte, with bounds-checked accessors, randomized seeding, and a
//! proved generation-stepping rule over the clamped Moore neighbourhood.

pub mod board;
pub mod life;
