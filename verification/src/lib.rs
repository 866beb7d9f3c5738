//! A manager for per-user game instances: toggleable asset references
//! (mods and iwads) kept in a managed directory layout, launch-command
//! assembly, and packaging of an instance together with its referenced
//! files into a single portable archive.
//!
//! Paths are modelled as UTF-8 strings. A path is absolute when it starts
//! with `/`; otherwise it is relative to the managed store root.

pub mod archive;
pub mod asset;
pub mod game_data;
pub mod instance;
pub mod metadata;
pub mod package;
pub mod paths;
pub mod record;
pub mod savedir;
pub mod store;
pub mod sulphur_config;
pub mod textfmt;
pub mod time;
pub mod utils;
