//! A local credential store: named username/password records grouped by
//! category, with deterministic listing order and uniform random password
//! generation. Persistence, prompting and clipboard access live outside
//! this library; it holds the record model, the store invariants, the
//! grouping logic and the generation engine.

pub mod charset;
pub mod credential;
pub mod errors;
pub mod generate;
pub mod laws;
pub mod listing;
pub mod render;
pub mod store;
pub mod text;
