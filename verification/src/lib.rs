//! Planning, running and supervising scripted system updates.

pub mod app;
pub mod catalog;
pub mod cli;
pub mod failure;
pub mod laws;
pub mod paths;
pub mod persistence;
pub mod planning;
pub mod profiles;
pub mod runner;
pub mod schedule;
pub mod session;
pub mod text;
pub mod tui;
pub mod variables;
pub mod workspace;
