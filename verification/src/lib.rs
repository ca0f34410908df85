//! A recyclable pool of `git worktree` checkouts: the rules that decide what
//! the pool does, as verified functions from plain values to plain values.
pub mod acquire;
pub mod admin;
pub mod cli;
pub mod commands;
pub mod config;
pub mod dashboard;
pub mod debug;
pub mod deletion_runs;
pub mod doctor;
pub mod effect;
pub mod error;
pub mod exit;
pub mod fs_paths;
pub mod git;
pub mod hooks;
pub mod laws;
pub mod lock;
pub mod mutex;
pub mod nesting;
pub mod order;
pub mod output;
pub mod parallel;
pub mod refs;
pub mod release;
pub mod release_runs;
pub mod slot;
pub mod submodules;
pub mod text;
pub mod text_lemmas;
pub mod types;
pub mod update_runs;
pub mod yaml;
