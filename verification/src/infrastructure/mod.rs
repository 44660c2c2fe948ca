//! Rule files: their text, and the directories that hold them.

pub mod config_repository;
pub mod fs_repo;
pub mod rule_parser;
pub mod rule_repository;
