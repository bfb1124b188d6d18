//! Seed-driven search over the underground encounters of the Brilliant Diamond /
//! Shining Pearl games: a 128-bit xorshift generator with a logarithmic jump, a
//! filter over spawn events, the search loop around a spawn oracle, and the
//! statue configuration that the oracle reads.

pub mod xorshift;
pub mod filter;
pub mod search;
pub mod context;
pub mod statue;
pub mod seed;
pub mod text;
