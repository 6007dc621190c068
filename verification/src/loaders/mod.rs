//! The loaders of the supported document formats.

pub mod yaml;
