//! Manto: the verified core of a desktop for the terminal.
//!
//! Windows, workspaces, embedded terminals and the screen that shows them are
//! plain state here. Input comes in as values, and what has to happen in the
//! world outside (processes, files, the clock) goes out as values.
pub mod app;
pub mod cmd;
pub mod command_laws;
pub mod config;
pub mod help;
pub mod history;
pub mod input;
pub mod input_laws;
pub mod json;
pub mod json_laws;
pub mod launch;
pub mod menu;
pub mod num;
pub mod number;
pub mod os;
pub mod places;
pub mod round_trip;
pub mod session;
pub mod shell;
pub mod terminal_backend;
pub mod terminal_emulator;
pub mod text;
pub mod ui;
pub mod vt;
pub mod wm;
