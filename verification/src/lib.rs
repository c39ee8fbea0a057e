//! Mappings between Rust enums and database values: the rules by which
//! enum variants receive their database names and ids, the resolution of
//! the `#[db(..)]` attributes, and the consistency check between an enum
//! and the variants found in a database.
use vstd::prelude::*;

pub mod case_style;
pub mod text;
pub mod skip_ids;
pub mod errors;
pub mod attributes;
pub mod variants;
pub mod mapping;
pub mod container;
pub mod generate;

verus! {

} // verus!
