//! Core logic of a small command-line client for a project-tracking web
//! service: grouping of activity feeds by day and story, a token-keyed
//! identity cache, branch-name and story-id handling, and the pure text
//! formatting behind the terminal output. All code here is verified; the
//! surrounding I/O (HTTP, files, terminal rendering) lives outside the
//! library and hands plain values in and out.

pub mod activity;
pub mod format;
pub mod gitref;
pub mod identity;
pub mod links;
pub mod schema;
pub mod text;
pub mod time;
