//! Rule inspection for an Ananicy-style process-priority daemon.
//!
//! The daemon applies declarative rules to processes by name. This library loads the rules
//! from the text of rule files, works out which rules are shadowed by later ones, answers
//! queries over them, and holds what a rule wants against what a live process has. It only
//! observes: it changes no priority, walks no directory and asks the kernel nothing. Its
//! caller hands it the text of the rule files and the raw values read of each process.
//!
//! - [`infrastructure`]: the parser of rule files and the loader over base directories.
//! - [`application`]: shadowing, querying and sorting of rules; the snapshot of the process
//!   table; the verdicts on a process under a rule; the state of the interactive view.
//! - [`domain`]: rules, processes and settings.
//! - [`json`], [`text`], [`path`], [`number`], [`order`]: what the above is built on.

pub mod application;
pub mod domain;
pub mod infrastructure;
pub mod json;
pub mod number;
pub mod order;
pub mod path;
pub mod text;
