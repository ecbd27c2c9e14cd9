//! Checks `.env` files against a template: parsing, validation, drift
//! comparison, configuration and the command reports built on them.
pub mod util;
pub mod env;
pub mod config;
pub mod fs;
pub mod cli;
pub mod commands;
pub mod report;
