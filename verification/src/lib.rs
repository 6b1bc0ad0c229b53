//! CastCodes core library: markdown documents, browser navigation, URL
//! resolution, language-server selection and theme import helpers.

pub mod text;
pub mod markdown;
pub mod browser;
pub mod lsp;
pub mod substrate;
pub mod themes;
pub mod file_tree;
pub mod sessions;
