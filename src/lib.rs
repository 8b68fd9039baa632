//! Duplicate detection over a tree of media files: a union-find structure, a
//! fingerprint cache, a clustering engine, the choice of media files, and a
//! registry of background analysis tasks with the command loop's decisions.

pub mod cache;
pub mod disjoint_set;
pub mod engine;
pub mod fingerprint;
pub mod media;
pub mod service;
pub mod tasks;
