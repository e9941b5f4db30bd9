//! Rename-planning library: a natural-order string comparator, a token-based
//! naming-pattern compiler, a durable file-identity codec, and a persisted,
//! serializable rename plan.

pub mod clock;
pub mod filesystem;
pub mod fullwidth;
pub mod natural_sort;
pub mod parser;
pub mod plan;
pub mod plan_text;
pub mod renamer;
pub mod strutil;
pub mod task;
pub mod args;

pub use fullwidth::FullWidth;
