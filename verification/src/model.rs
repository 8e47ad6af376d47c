//! Entity records of the three tables, together with the spec-level view of a
//! table as a sequence of rows: row lookup by id, and uniqueness of ids.

pub mod character;
pub mod row;
pub mod skill;
pub mod task;
