//! What the inspector does with rules and processes.

pub mod browser;
pub mod process_service;
pub mod reconciliation;
pub mod rule_service;
