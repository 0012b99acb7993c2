//! Reconciles conflicting snapshots of a task database left behind by a file
//! synchronisation tool: finds them, merges their records last-write-wins per
//! item, and decides the safe order of backup, deletion and replacement.

pub mod civil;
pub mod history;
pub mod scan;
pub mod retention;
pub mod config;
pub mod run;
