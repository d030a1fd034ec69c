//! A PDF compression front end around Ghostscript: path handling, size
//! reporting, Ghostscript detection and invocation, and the application's
//! state machine.
pub mod text;
pub mod path;
pub mod path_list;
pub mod prefix;
pub mod compression;
pub mod models;
pub mod ghostscript;
pub mod app;
