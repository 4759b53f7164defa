//! Commit provenance for book pages: configuration resolution, timestamp
//! formatting, repository metadata parsing, contributor rosters and the
//! code-fence-aware token renderer that decorates each page.

pub mod config;
pub mod git;
pub mod layout;
pub mod processor;
pub mod renderer;
pub mod repo;
pub mod roster;
pub mod text;
pub mod theme;
pub mod timefmt;
pub mod tokens;
