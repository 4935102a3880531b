//! A collection of small verified exercises.  The heart of the crate is
//! the route cipher: a character matrix with bounds-checked, padded
//! lookups (`matrix`), an inward spiral traversal of a grid proved to
//! visit every cell exactly once (`spiral`), and the encoder that joins
//! the two (`cipher`).  Beside it stand a garage-door state machine
//! (`door`), a Ducci sequence generator (`ducci`), a dice roller
//! (`dice`), and the shared text helpers (`text`).

pub mod cipher;
pub mod dice;
pub mod door;
pub mod ducci;
pub mod matrix;
pub mod spiral;
pub mod tally;
pub mod text;
