//! A general purpose package manager whose package types are user scripts.
//!
//! The library keeps three keyed registries (repositories, package types and
//! the packages of one repository), builds the command line that runs a type's
//! script, records the cache token a script prints, and decides what happens
//! to a registry entry when the filesystem work around it fails.
//!
//! The library never touches the filesystem and never starts a process. Where an operation
//! needs such work, it comes in two parts: one that says what has to be done (`plan_add`,
//! `plan_update`, `removal_target`, `copy`), and one that takes in how it ended and changes the
//! registry accordingly (`add`, `update`, `remove`). The caller does the work in between.

pub mod command;
pub mod error;
pub mod escape_win;
pub mod main_config;
pub mod output;
pub mod path;
pub mod recovery;
pub mod registry;
pub mod repository_config;
pub mod text;
pub mod type_config;
