//! Saving messages: what to write for each message and how the timeline is
//! walked.
pub mod file;
pub mod saver;
