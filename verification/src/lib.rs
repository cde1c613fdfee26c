//! Rewrites a file-server configuration for deployment inside a container
//! image: absolute file paths are remapped from a host directory tree to a
//! fixed container directory, the resulting configuration is rendered in its
//! canonical text form, and three placeholder tokens are substituted into a
//! deployment-template text.
//!
//! All file input and output stays with the caller: the functions here work
//! on plain values (strings, integers) and state exactly what they produce.

pub mod config;
pub mod digits;
pub mod error;
pub mod path_map;
pub mod serial;
pub mod template;
