//! Course export retrieval: the decisions behind scraping a course page,
//! interpreting the reply to a page request, laying out an archive's
//! entries under a destination directory, and driving a batch of courses.
//!
//! Everything here is a function from plain values to plain values; the
//! network and the filesystem are left to the caller.

pub mod text;
pub mod page;
pub mod archive;
pub mod effects;
pub mod course;
pub mod batch;
