//! A package manager's core: package records, the repository
//! configuration format, the installed-package database, dependency
//! resolution for installing and removing, and the decisions that drive
//! installation and removal.
pub mod text;
pub mod strmap;
pub mod types;
pub mod removal;
pub mod resolve;
pub mod config;
pub mod checksum;
pub mod install_data;
pub mod database;
pub mod remove_data;
pub mod pkgmgr;
pub mod install_run;
pub mod remove_run;
pub mod info;
pub mod preset;
pub mod update_data;
