//! A registry of alternatives: for each link name a set of candidate targets
//! with priorities, the record format it is stored in, and the decisions that
//! keep records and symbolic links up to date.
//!
//! The library touches no file. Loading takes what a caller found in the
//! directory of records; committing and linking are runs of single steps, in
//! which the library says what to do next and the caller reports how it went.

pub mod alternative;
pub mod alternative_db;
pub mod alternative_list;
pub mod commit;
pub mod durability;
pub mod json;
pub mod links;
pub mod listing;
pub mod record;
