//! The rules of a load generator for HTTP servers that is scripted in Lua: scripts and what they
//! describe, schedules, virtual users and their connections, and metrics.
pub mod accuracy;
pub mod args;
pub mod binary64;
pub mod cli;
pub mod config;
pub mod dispatch;
pub mod dt;
pub mod forms;
pub mod http_request;
pub mod lines;
pub mod maps;
pub mod metric;
pub mod reactor;
pub mod report;
pub mod run;
pub mod schedule;
pub mod source;
pub mod text;
pub mod value;
pub mod vu;
