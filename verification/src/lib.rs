//! Core logic of a pre-commit hook runner for repositories that hold several
//! independent cargo projects: deciding which project roots are affected by a
//! set of changed files, what command line to run against each, and how the
//! per-root outcomes combine into one exit status.

pub mod action;
pub mod dispatch;
pub mod path;
pub mod resolve;
pub mod toolchain;
