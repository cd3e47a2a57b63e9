//! Registry resolution and local package cache engine of the package manager.
pub mod pkg_type;
pub mod version;
pub mod addons;
pub mod packages;
pub mod identity;
pub mod cache;
pub mod recorder;
pub mod resolver;
pub mod retry;
