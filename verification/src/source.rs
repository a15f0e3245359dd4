//! Discovery of a package's functions, under its original module path.
pub use crate::file_walker::normalize_path;
pub use crate::source_function_discovery::discover_functions;
