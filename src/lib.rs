//! Conversion between Wine paths (drive letter plus backslash-separated
//! segments) and native paths, through a table of drive mappings.
pub mod cache;
pub mod config;
pub mod drive;
pub mod native;
pub mod wine_path;

pub use cache::DriveCache;
pub use config::WineConfig;
pub use native::{Component, NativePath};
pub use wine_path::{WinePath, WinePathError};
