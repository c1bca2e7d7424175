//! Static resolution of shared-library dependencies and the decisions
//! needed to mirror binaries and libraries into a destination tree.
//!
//! Nothing here touches the disk or starts a process. Every operation is a
//! job that hands out one [`ops::Request`] at a time and is continued with the
//! [`ops::Answer`] to it. The functions that take a [`tree::SourceTree`] carry
//! such a job to its end, answered from a record of what was observed.

pub mod analyze;
pub mod closure;
pub mod copy;
pub mod error;
pub mod find;
pub mod link;
pub mod ops;
pub mod paths;
pub mod place;
pub mod text;
pub mod tree;
pub mod walk;

pub use analyze::{get_library_dependencies, parse_readelf_output};
pub use closure::get_all_dependencies;
pub use copy::{copy_dir_recursive, copy_dir_recursive_overwrite};
pub use link::{create_symlink_if_missing, make_executable};
pub use paths::{find_binary, find_library, find_sbin_binary};
pub use place::copy_library_to;
