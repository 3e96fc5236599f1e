//! Runs an external command-line tool and turns its raw output into a
//! normalized, trustworthy result.
pub mod locator;
pub mod sanitize;
pub mod text;
pub mod verdict;
