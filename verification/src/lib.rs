//! A catalog of tagged media files, and the small script language that
//! fills it: the scripts are lexed, parsed into a document, checked against
//! the catalog and committed to it.

use vstd::prelude::*;

pub mod commands;
pub mod database;
pub mod error;
pub mod lookup;
pub mod media;
pub mod query;
pub mod routes_web;
pub mod string_map;
pub mod string_set;
pub mod sync_db;
pub mod text;

verus! {

/// Sum of two sizes, where the sum fits.
pub fn add(left: usize, right: usize) -> (sum: usize)
    requires
        left + right <= usize::MAX,
    ensures
        sum == left + right,
{
    left + right
}

} // verus!
