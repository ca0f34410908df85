//! Laws of the operations as they are called: what each gives for what it is given.
pub mod admin;
pub mod commands;
pub mod config;
pub mod dashboard;
pub mod doctor;
pub mod git;
pub mod output;
pub mod paths;
pub mod runs;
pub mod slots;
pub mod submodules;
pub mod text;
pub mod types;
