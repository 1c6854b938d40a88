//! Recursively rewrites file contents under directory roots by applying a
//! textual substitution rule to every regular file reachable in the tree.
//!
//! The library holds the logic of the tool: the lazy depth-first walk over a
//! directory tree, the lazy flattening combinator that chains several roots,
//! the gating and substitution step applied to one file's content, the naming
//! discipline and publish protocol of the atomic rewrite, and the parsing of
//! the command line.  Reading directories, files and the process environment
//! is left to the thin program around it, which feeds the library plain
//! values and carries out the actions the library decides on.

pub mod dir_iter;
pub mod far;
pub mod file;
pub mod input;
pub mod iter;
pub mod intersperse;
pub mod pattern;
pub mod replace;
