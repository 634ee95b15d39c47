//! Checks that workspace tools apply to the commands they run.
pub mod command_line;
pub mod exec_paths;
