//! Position evaluation for chess by a learned scalar evaluator, the search
//! that uses it, and the self-play that makes its training data.
//!
//! - `features` turns a position, or a move in a position, into a vector of
//!   fixed width; `values` is the older encoding by piece values.
//! - `search` is depth-limited negamax with alpha-beta pruning over any leaf
//!   evaluator, with the proofs that pruning changes nothing inside the
//!   bounds and that the two sides see negated scores; `learned` runs it over
//!   evaluators that take the vector of a position.
//! - `selfplay` plays games along the engine's search and samples labeled
//!   moves; `samples` and `labels` drop the outliers and rescale the labels.
//! - `play` and `loader` hold what a game at the terminal and a stored
//!   dataset need beyond that.
//! - `rules` is the boundary to the rules engine and the random source,
//!   `sound` tells which boards the engine can play on, and `moves` and
//!   `material` read what the engine hands over.
//!
//! Nothing in the library computes in floating point. A cell of a vector is a
//! number of fortieths and a label is an exact fraction; turning them into
//! floating-point values is left to the caller.

pub mod features;
pub mod labels;
pub mod learned;
pub mod loader;
pub mod material;
pub mod moves;
pub mod play;
pub mod rules;
pub mod samples;
pub mod search;
pub mod selfplay;
pub mod sound;
pub mod values;
