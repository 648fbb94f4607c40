//! Resolution of a node-based dotfiles configuration into bundles of file
//! actions, with shell-style variable expansion, source-anchored diagnostics
//! and a planner that maps several source trees onto their destinations.

pub mod text;
pub mod strmap;
pub mod expand;
pub mod env;
pub mod diag;
pub mod document;
pub mod helpers;
pub mod file_ops;
pub mod config;
pub mod planner;
pub mod install;
