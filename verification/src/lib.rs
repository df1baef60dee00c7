//! The decisions of a Homebrew-compatible package manager: what a formula, a
//! cask or a Brewfile says, which requests are made for it, and in which order
//! it is downloaded, unpacked, linked and recorded.
pub mod api;
pub mod bundle;
pub mod cask;
pub mod cask_api;
pub mod cask_install;
pub mod error;
pub mod execute;
pub mod extract;
pub mod fetch;
pub mod formula;
pub mod formula_parser;
pub mod heredoc;
pub mod install;
pub mod json;
pub mod path;
pub mod platform;
pub mod progress;
pub mod remove;
pub mod ruby;
pub mod setup;
pub mod stand_in;
pub mod summary;
pub mod syntax;
pub mod tap;
pub mod text;
pub mod text_map;
