//! The interactive screens: what they hold, how keys and events change it, and what they show.
pub mod keys;
pub mod menu;
pub mod selection;
pub mod location;
pub mod analyze;
pub mod execution;
pub mod workflow;
pub mod app;
pub mod view;
