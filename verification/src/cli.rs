//! The command line: what each command asks for, decides and prints.
pub mod analyze;
pub mod args;
pub mod clean;
pub mod information;
pub mod purge;
pub mod run;
pub mod support;
pub mod uninstall;
