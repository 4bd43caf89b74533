//! Decision logic of a graphical runner for `cargo xtask` pipelines and
//! standard cargo commands.

pub mod text;
pub mod listing;
pub mod strmap;
pub mod theme;
pub mod tasks;
pub mod state;
pub mod manifest;
pub mod pipeline;
pub mod runner;
pub mod console;
pub mod xtask;
pub mod icon;
