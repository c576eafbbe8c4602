//! What the operations of the library are for, stated on what goes in and what
//! comes out.

pub mod cockpit;
pub mod commands;
pub mod display;
pub mod keys;
pub mod operations;
pub mod places;
pub mod plans;
pub mod runs;
pub mod store;
pub mod texts;
