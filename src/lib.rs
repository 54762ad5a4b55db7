//! A model of an incremental module-graph processor and of the issue
//! attribution machinery that sits on top of it, with verified contracts.

pub mod collectibles;
pub mod context;
pub mod git_hash;
pub mod graph;
pub mod issue;
pub mod memo;
pub mod module_options;
pub mod order;
pub mod package_files;
pub mod path;
pub mod severity;
pub mod source;
