//! Verified core of a terminal front end for an LC-3 simulator.

pub mod ansi;
pub mod strings;
pub mod util;
pub mod program_source;
pub mod debug;
pub mod events;
pub mod numbers;
pub mod points;
pub mod mem;
pub mod draw;
pub mod widgets;
pub mod layout;
pub mod state;
pub mod group;
pub mod io;
pub mod modes;
pub mod device;
pub mod panel;
pub mod screen;
