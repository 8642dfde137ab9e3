//! What the operations are for: laws over their inputs and results, stated in
//! terms of the records themselves.
pub mod commands;
pub mod dependencies;
pub mod display;
pub mod doctor;
pub mod edits;
pub mod entries;
pub mod files;
pub mod git;
pub mod inspection;
pub mod names;
pub mod projects;
pub mod readings;
pub mod references;
pub mod refusals;
pub mod reports;
pub mod search;
pub mod summaries;
pub mod texts;
pub mod views;
