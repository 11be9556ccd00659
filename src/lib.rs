//! A file concatenator: walks directory trees, drops paths that match
//! ignore globs, keeps files that look like text and joins their contents
//! into one labelled stream.

pub mod args;
pub mod path;
pub mod classify;
pub mod ignore;
pub mod aggregate;
