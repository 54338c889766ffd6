//! A verified core for a notes application: a hierarchical object store with
//! soft delete and automatic unique naming, plus the pollable cache-cell state
//! machine that bridges background I/O completions to a single-threaded
//! consumer.

pub mod app;
pub mod cell;
pub mod data;
pub mod folder;
pub mod font_icons;
pub mod id_gen;
pub mod kvmap;
pub mod naming;
pub mod note;
pub mod note_tree;
pub mod storage;
pub mod task;
pub mod trash;
pub mod tree;
pub mod util;
