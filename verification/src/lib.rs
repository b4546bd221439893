//! Mandates: documentation held to a standard. A mandate names the documents
//! it governs, the rules they must follow, and the source files that back
//! them; this library validates mandates against a snapshot of a repository
//! and renders the results.

pub mod text;
pub mod mandate;
pub mod file_tree;
pub mod validation;
pub mod fs_path;
pub mod ports;
pub mod run_report;
pub mod plain_report;
pub mod run_mandates;
pub mod run_laws;
pub mod cli;
pub mod mandate_doc;
pub mod memory_tree;
pub mod validate_command;
pub mod file_system;
pub mod fs_mandate_store;
pub mod fs_file_tree_source;
