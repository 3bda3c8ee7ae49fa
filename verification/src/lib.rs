//! Finding and deleting every nested `node_modules` directory under a project root.

pub mod api;
pub mod cli;
pub mod disposal;
pub mod finder;
pub mod glob;
pub mod json;
pub mod laws;
pub mod order;
pub mod path;
pub mod report;
pub mod run;
pub mod size;
pub mod text;
pub mod trash;
pub mod tree;
pub mod walk;
pub mod workspace;

pub use api::{clean, resolve_workspace, CleanOptions, CleanResult, CleanedDir};
pub use disposal::Mode;
pub use workspace::{workspace_kind_str, WorkspaceKind};
