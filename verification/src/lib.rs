//! Terminal project manager, git-like: one `.nest/` folder per project.
pub mod cli;
pub mod clock;
pub mod diag;
pub mod doc;
pub mod error;
pub mod forgejo;
pub mod gitflow;
pub mod graph;
pub mod json;
pub mod knowledge;
pub mod laws;
pub mod mcp;
pub mod model;
pub mod order;
pub mod project;
pub mod repair;
pub mod service;
pub mod tasks;
pub mod text;
