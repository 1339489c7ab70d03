//! Binds shell scripts to the lifecycle events of activities and keeps the
//! bindings as a tree of symbolic links.

pub mod text;
pub mod locale;
pub mod event;
pub mod error;
pub mod script_filename;
pub mod activity;
pub mod source;
pub mod store;
pub mod config;
pub mod session;
