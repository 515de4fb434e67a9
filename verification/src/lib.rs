//! Kernel source-tree utilities: locate a repository root by its
//! version-control marker and parse the version header of a kernel
//! build-metadata file into a structured descriptor.

pub mod locator;
pub mod text;
pub mod util;
