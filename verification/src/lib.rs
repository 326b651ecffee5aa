//! Deterministic task runner: the rules behind the command line, the artifact
//! cache, the executor and the terminal dashboard, with their contracts.

pub mod cache;
pub mod cancel;
pub mod command;
pub mod dashboard;
pub mod decimal;
pub mod event;
pub mod executor;
pub mod explain;
pub mod files;
pub mod graph;
pub mod invocation;
pub mod keys;
pub mod launcher;
pub mod model;
pub mod number;
pub mod paths;
pub mod promotion;
pub mod record;
pub mod report;
pub mod session;
pub mod single;
pub mod staging;
pub mod state;
pub mod store;
pub mod task_run;
pub mod text;
pub mod text_map;
pub mod theme;
pub mod time;
pub mod widgets;
