//! Signed-cut decomposition of integer matrices.
//!
//! A matrix is approximated by a short sum of weighted rank-one sign
//! patterns ("cuts"): two vectors of +1 and -1 and a weight. An engine
//! finds one cut after another on what is left of the matrix, the
//! residual, and takes each from it.
//!
//! All arithmetic is exact. Entries, weights and norms are integers in a
//! unit of the caller's choice, so every identity the engine promises holds
//! to the last digit: the residual is the target less the cuts, and its
//! squared norm never rises.
//!
//! - `matrix`, `cut`, `views`: the data and how proofs read it.
//! - `linear`, `norm_lemmas`: dot products, norms, rank-one updates.
//! - `tiled`: products and updates computed tile by tile.
//! - `generator`: the random draws and the record of them.
//! - `search`, `finder`: the alternating search for one cut.
//! - `state`, `engine`, `theorems`: the engine and what holds of it.
//! - `budget`, `pixel`, `error`: cut counts, pixel levels, refusals.

pub mod budget;
pub mod cut;
pub mod engine;
pub mod error;
pub mod finder;
pub mod generator;
pub mod linear;
pub mod matrix;
pub mod norm_lemmas;
pub mod pixel;
pub mod search;
pub mod state;
pub mod theorems;
pub mod tiled;
pub mod views;
