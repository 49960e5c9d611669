//! Safe disk cleanup for Linux: what may be removed, what would be reclaimed, and which
//! commands a cleanup is allowed to run.
pub mod text;
pub mod number;
pub mod order;
pub mod path;
pub mod model;
pub mod double;
pub mod size;
pub mod facts;
pub mod models;
pub mod uninstall;
pub mod catalog;
pub mod command;
pub mod recorder;
pub mod guard;
pub mod preview;
pub mod executor;
pub mod distro;
pub mod containers;
pub mod snaps;
pub mod scanner;
pub mod accepted;
pub mod measure;
pub mod offered;
pub mod path_map;
pub mod analyze;
pub mod history;
pub mod update;
pub mod purge;
pub mod status;
pub mod time;
pub mod cli;
pub mod tui;
