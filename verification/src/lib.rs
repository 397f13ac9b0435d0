//! Verified core of a README-harvesting tool.
//!
//! The library decides how a README is reached for a repository URL
//! (provider resolution, strategy fallback) and which credential is used
//! for each request (token rotation and quota bookkeeping), and it reads
//! a manifest of URLs backwards so that interrupted runs can resume from
//! a persisted line count.  All I/O — HTTP, files, the environment, the
//! clock — stays outside; the functions here work on plain values.

pub mod bytes;
pub mod cli;
pub mod config;
pub mod dispatch;
pub mod failure;
pub mod domain;
pub mod factory;
pub mod headers;
pub mod hosts;
pub mod provider;
pub mod reader;
pub mod strategy;
pub mod token;
