//! Task view engine for a personal task dashboard.
//!
//! Classifies tasks into display categories, builds ancestor-inclusive
//! working sets, orders them by family, ranks tasks for fuzzy search, and
//! keeps the local pin/snooze overlays.

pub mod app;
pub mod config;
pub mod feed;
pub mod models;
pub mod order;
pub mod search;
pub mod text;
pub mod workset;
