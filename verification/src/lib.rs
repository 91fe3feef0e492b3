//! Core of a log-monitoring engine: scheduled tasks, pluggable data
//! sources with a bounded tail reader, regex triggers, per-source and
//! per-set orchestration, and an undoable command layer.

pub mod error;
pub mod text;
pub mod decimal;
pub mod task;
pub mod trigger;
pub mod source;
pub mod extra;
pub mod logfile;
pub mod logset;
pub mod command;
pub mod tab;
pub mod codec;
