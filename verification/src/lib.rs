//! Two questions about the code on a machine: is a crate published at the
//! version it has here, and which git repositories under a directory want
//! attention. The library holds the decisions; running commands, reading
//! directories and printing are left to the programs that use it.
pub mod args;
pub mod cli;
pub mod command;
pub mod git;
pub mod manifest;
pub mod order;
pub mod package;
pub mod path;
pub mod registry;
pub mod repos;
pub mod run;
pub mod scan;
pub mod selection;
pub mod session;
pub mod status;
pub mod text;
pub mod version;
