//! Cactus simulation bookkeeping.

pub mod args;
pub mod clock;
pub mod config;
pub mod mdb;
pub mod order;
pub mod par;
pub mod pattern;
pub mod progress;
pub mod scheduler;
pub mod search;
pub mod shell;
pub mod sim;
pub mod table;
pub mod tail;
pub mod template;
pub mod text;
pub mod toml_text;
pub mod walltime;
