//! Priority scoring and presentation logic for a Patchwork review dashboard.
pub mod clock;
pub mod config;
pub mod dashboard;
pub mod patchwork;
pub mod patterns;
pub mod scoring;
pub mod templates;
pub mod terminal;
pub mod text;
pub mod web;
