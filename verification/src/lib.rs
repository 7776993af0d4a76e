//! Finds installer files left behind in a directory tree and purges them on
//! request.
//!
//! The library holds the rules; reading directories, prompting and deleting
//! are left to the caller, who reports what happened as events:
//!
//! - [`selection`] reads the selection syntax (`1,3-5`, `all`, `none`);
//! - [`installed`] matches file names against the names of installed programs;
//! - [`scanner`] decides which entries of a walk are recorded, and how;
//! - [`purge`] takes a purge from preview to report;
//! - [`report`] ranks files by size and writes time stamps;
//! - [`models`] holds the records, and [`text`] the character-level helpers.

pub mod installed;
pub mod models;
pub mod purge;
pub mod report;
pub mod scanner;
pub mod selection;
pub mod text;
