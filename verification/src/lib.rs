//! Builds the index page of a collection of slide presentations.
//!
//! A collection is a `slides` directory with one subdirectory per
//! presentation; each subdirectory holds a JSON metadata file that gives the
//! presentation's display name and the target of its link. The library holds
//! everything that is decided or computed on the way from that directory tree
//! to the text of the index page; reading the tree and writing the page are
//! left to the caller.

pub mod file_name;
pub mod html;
pub mod json;
pub mod metadata;
pub mod record;
pub mod scan;
pub mod tree;
