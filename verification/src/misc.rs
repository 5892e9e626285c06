//! Path-composition capabilities shared by every path representation the
//! traversal supports: producing the canonical root path and joining two
//! path values into one.

pub mod archive_root;
pub mod join_path;

pub use archive_root::ArchiveRoot;
pub use join_path::JoinPath;
