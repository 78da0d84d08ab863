//! Core of a minimal local version-snapshot tool: locating the nearest
//! enclosing repository, the filename encoding that embeds a timestamp,
//! and the query/match/disambiguation algorithm for restores.

pub mod clock;
pub mod matcher;
pub mod naming;
pub mod numbers;
pub mod outcome;
pub mod paths;
pub mod parse;
pub mod repo;
pub mod text;
pub mod timespec;
