//! A personal task tracker built around an append-only log of effects.

pub mod command;
pub mod config;
pub mod dispatch;
pub mod extras;
pub mod ident;
pub mod laws;
pub mod model;
pub mod numbering;
pub mod printer;
pub mod tags;
pub mod task;
pub mod task_ref;
pub mod terminal_size;
pub mod text;
pub mod time;

