//! What the operations promise, stated over their inputs and results.
pub mod acquire;
pub mod admin;
pub mod calls;
pub mod commands;
pub mod config;
pub mod dashboard;
pub mod doctor;
pub mod git;
pub mod gitmodules;
pub mod hooks;
pub mod lists;
pub mod lock;
pub mod mutex;
pub mod output;
pub mod parallel;
pub mod paths;
pub mod release;
pub mod slots;
pub mod submodule_steps;
pub mod submodules;
pub mod text;
pub mod views;
pub mod yaml;
