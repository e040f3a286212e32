//! Documentation generator for SystemVerilog projects.
//!
//! The library discovers the source set of a project, extracts the design
//! units that each source file declares and composes the Markdown documents
//! and the table of contents of a book that describes them.

pub mod args;
pub mod fsnode;
pub mod mdbook;
pub mod order;
pub mod paths;
