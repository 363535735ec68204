//! `binx`, an alias manager for executables: the verified core.
//!
//! An alias names an executable; the configuration maps alias names to what
//! each alias records. The library decides where `binx` keeps its files,
//! what it writes into them, what a command line asks for, and what removing
//! an alias takes away; the program around it does the file and process
//! work.

pub mod text;
pub mod paths;
pub mod config;
pub mod version;
pub mod install;
pub mod system;
pub mod desktop;
pub mod cli;
pub mod laws;
