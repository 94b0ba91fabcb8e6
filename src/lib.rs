//! Finding the desktop applications of a system, showing them with their icons, and
//! building the command line that launches one.

pub mod catalog;
pub mod command;
pub mod descriptor;
pub mod icon;
pub mod launch;
pub mod model;
mod text;
