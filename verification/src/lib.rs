//! Core of a keystroke-driven application launcher: an in-memory index of
//! launchable entries (desktop applications and filesystem paths), a
//! three-mode search engine with usage-weighted ranking, and a small
//! persistent heatmap of launch counts.
//!
//! All I/O (directory scanning, file reading, process spawning, the UI)
//! lives outside this crate; the functions here are pure computations over
//! the values that the surrounding program hands in.

pub mod bindings;
pub mod config;
pub mod desktop;
pub mod entry;
pub mod heatmap;
pub mod index;
pub mod search;
pub mod text;
