//! Counting lines, characters and words of texts and of directory trees.
pub mod metrics;
pub mod ignore;
pub mod report;
pub mod walk;
pub mod listing;
