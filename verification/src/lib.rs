//! Runs linters and formatters over a project's files, and remembers what it
//! has already done: a persistent cache of (file, tool) pairs, a planner that
//! consults it, a job builder that balances the remaining work, and the
//! bookkeeping of an executor that records only what succeeded.

pub mod add;
pub mod cache;
pub mod cli;
pub mod cmd;
pub mod config;
pub mod dispatch;
pub mod exec;
pub mod file;
pub mod format;
pub mod git;
pub mod glob;
pub mod hash;
pub mod init;
pub mod job;
pub mod known;
pub mod ninja;
pub mod order;
pub mod path;
pub mod plan;
pub mod roundtrip;
pub mod sorting;
pub mod staged;
pub mod run;
pub mod text;
pub mod tool;
pub mod warn;
