//! Typed answers about a git work tree, and a lexical algebra of the paths
//! inside it.
//!
//! Paths are byte strings in the `/`-separated syntax: the library never
//! touches the file system, and every function on paths is a total function
//! of the bytes it is given.
pub mod errors;
pub mod normalize;
pub mod path;
pub mod prefix;
pub mod probe;
pub mod process;
pub mod subdir;
pub mod text;
