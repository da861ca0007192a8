//! Verified editing and intelligence logic for Typst editors: formatting
//! edits on the syntax tree, completion refinement, the language server's
//! completions, the editor's tabs, file tree, caches and menus.

pub mod app_state;
pub mod args;
pub mod cache;
pub mod curve;
pub mod dropdown;
pub mod edit;
pub mod files;
pub mod format;
pub mod intel;
pub mod lsp;
pub mod menus;
pub mod paths;
pub mod popup;
pub mod provider;
pub mod session;
pub mod settings;
pub mod syntax;
pub mod tabs;
pub mod text;
