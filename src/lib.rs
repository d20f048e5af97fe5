//! Unix shell style pattern matching over paths: a pattern compiler, a
//! backtracking matcher, and a lazily expanding directory walk whose
//! filesystem accesses are left to the caller.

pub mod chars;
pub mod compile;
pub mod components;
pub mod error;
pub mod laws;
pub mod listing;
pub mod matcher;
pub mod options;
pub mod path;
pub mod pattern;
pub mod state;
pub mod text;
pub mod token;
pub mod walk;

pub use compile::PatternError;
pub use options::MatchOptions;
pub use pattern::Pattern;
pub use components::{glob, glob_with};
pub use error::GlobError;
pub use listing::DirEntry;
pub use walk::{Action, Paths};
