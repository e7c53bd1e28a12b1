//! What the catalog keeps.

pub mod models;
