//! Turns a tree of Notion blocks into a Pandoc document tree.
//!
//! `notion` holds the source blocks, the fetch from the answers of the API
//! and the two normalisation passes; `shape` states what these keep and
//! establish. `pandoc` is the target document model and `convert` the
//! mapping from one to the other. `embed` finds the markup for embedded
//! URLs, and `glue` holds the calls into other crates.

pub mod convert;
pub mod embed;
pub mod glue;
pub mod notion;
pub mod pandoc;
pub mod shape;
