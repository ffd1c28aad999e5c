//! Usage accounting, title composition and scheduling rules for Codex rollouts.
#![allow(unused_imports)]

pub mod text;
pub mod words;
pub mod sort;
pub mod title;
pub mod title_laws;
pub mod schedule;
pub mod platform;
pub mod output;
pub mod cli;
pub mod date_filter;
pub mod project;
pub mod discovery;
pub mod session;
pub mod update;
pub mod progress;
pub mod analysis;
pub mod keyed;
pub mod analyze;
pub mod jsonl;
pub mod report;
pub mod tree;
pub mod tally;
pub mod threads;
pub mod related;
pub mod pricing;
pub mod totals;
pub mod install;
pub mod paths;
pub mod linux;
pub mod macos;
pub mod windows;
