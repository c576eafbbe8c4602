//! The cockpit: its state, its keys, and what it shows.

pub mod clock;
pub mod control;
pub mod course;
pub mod items;
pub mod laws;
pub mod layout;
pub mod model;
pub mod scene;
pub mod state;
pub mod style;
pub mod view;
