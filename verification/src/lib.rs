//! Classifies the filesystem dependencies of a single build unit and resolves
//! them to build-system target labels.
//!
//! The pipeline: expand directory dependencies into flat file lists, rewrite
//! absolute paths relative to the workspace root (dropping paths outside it),
//! partition into paths owned by the unit's own directory and external ones,
//! discover package directories by their marker files, and resolve every path
//! to a `//package:target` label.

pub mod error;
pub mod expand;
pub mod label;
pub mod packages;
pub mod paths;
pub mod scan;
