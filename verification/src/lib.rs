//! Verified core of an object store that keeps its objects in a GitHub repository.

pub mod text;
pub mod api;
pub mod outside;
pub mod sort;
pub mod json;
pub mod github;
pub mod listing;
pub mod uploads;
pub mod sessions;
pub mod object;
pub mod cli;
