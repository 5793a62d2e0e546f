//! Build-step versioning and file replication core of a container image
//! builder: filter rule compilation, deterministic path enumeration, a
//! field-recording digest, the permission policy used when copying, and the
//! `Depends` and `Copy` build steps built on top of them.

pub mod mode;
pub mod filter;
pub mod order;
pub mod paths;
pub mod digest;
pub mod steps;
