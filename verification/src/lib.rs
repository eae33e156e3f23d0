//! Symbol-aware merging of static archives.
//!
//! The crate models the core of an archive merger: classifying the object
//! files found in the input archives, indexing their symbol tables, building
//! the inter-object dependency graph, pruning objects that do not support a
//! kept public symbol, ordering the survivors, and planning the external tool
//! invocations that produce the final merged archive.

pub mod arbuilder;
pub mod archives;
pub mod input_library;
pub mod merge_error;
pub mod objects;
pub mod order;
pub mod policy;
pub mod process_input_error;

pub use crate::archives::ArchiveContents;
pub use crate::input_library::InputLibrary;
pub use crate::merge_error::MergeError;
pub use crate::policy::ArmergeKeepOrRemove;
pub use crate::policy::Pattern;
pub use crate::process_input_error::ProcessInputError;
