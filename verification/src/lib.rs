//! Security checks for Kubernetes manifests, with verified contracts.

pub mod browser;
pub mod documents;
pub mod export;
pub mod files;
pub mod models;
pub mod scanner;
pub mod sorting;
pub mod text;
pub mod yaml;
