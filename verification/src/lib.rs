//! Break/Points: a row of browser panels at the widths where a site's layout
//! changes, and everything needed to find those widths, draw the panels, and
//! say what is wrong with what they show.

pub mod access;
pub mod audit;
pub mod baseline;
pub mod bridge;
pub mod browser;
pub mod callback;
pub mod canvas;
pub mod commands;
pub mod explain;
pub mod generate;
pub mod json;
pub mod model;
pub mod order;
pub mod picture;
pub mod project;
pub mod project_file;
pub mod references;
pub mod scanner;
pub mod shots;
pub mod skills;
pub mod state;
pub mod table;
pub mod terminal;
pub mod text;
pub mod tools;
pub mod util;
pub mod verify;
pub mod window;

pub use window::{fits_on_a_screen, Screen};
