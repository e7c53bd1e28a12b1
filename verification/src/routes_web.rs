//! The pages of the catalog.

pub mod models;
