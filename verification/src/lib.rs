//! Content-based duplicate removal and sequential renaming of the regular files
//! of one directory: natural ordering of names, duplicate detection, rename
//! planning, crash-safe two-phase renaming and the decisions around them.

pub mod text;
pub mod sorter;
pub mod order_laws;
pub mod paths;
pub mod models;
pub mod error;
pub mod platform;
pub mod rename_planner;
pub mod plan_laws;
pub mod duplicate_detector;
pub mod detect_laws;
pub mod execution;
pub mod exec_laws;
pub mod renamer;
pub mod scanner;
pub mod processor;
pub mod lock;
pub mod cli;
pub mod commands;
pub mod digests;
