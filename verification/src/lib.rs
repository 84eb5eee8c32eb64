//! Decision logic for fetching a source archive, building it with Maven or
//! Gradle, and picking the JAR to publish.
//!
//! Every stage is a function from plain values to plain values: directory
//! listings go in, and a normalized layout, a build plan or the index of the
//! chosen artifact comes out. Reading directories, running commands and copying
//! files is left to the caller.

pub mod artifact;
pub mod config;
pub mod dispatch;
pub mod entry;
pub mod error;
pub mod fetch;
pub mod layout;
pub mod text;
