//! Core of a CRUD service over a three-level hierarchy of records
//! (Character, Skill, Task). The library models the backing store as a
//! well-formed relational state, implements the repository operations with
//! their cascade rules (parent timestamps are bumped whenever a child row
//! changes), and dispatches a closed set of queries against that state.

use vstd::prelude::*;

pub mod api;
pub mod db;
pub mod laws;
pub mod model;
pub mod util;

pub use util::{now, IdType, TimeType};

verus! {

/// The error taxonomy that every operation of the library reports through.
#[derive(Debug)]
pub enum AppError {
    ValidationError { field: String },
    NotFound,
    DBError { error_msg: String },
    InternalError,
    NotImplemented,
}

impl AppError {
    /// The HTTP status that each error kind maps to.
    pub open spec fn spec_status_code(self) -> u16 {
        match self {
            AppError::ValidationError { .. } => 400,
            AppError::NotFound => 404,
            AppError::DBError { .. } => 500,
            AppError::InternalError => 500,
            AppError::NotImplemented => 501,
        }
    }

    pub fn status_code(&self) -> (code: u16)
        ensures
            code == self.spec_status_code(),
    {
        match self {
            AppError::ValidationError { .. } => 400,
            AppError::NotFound => 404,
            AppError::DBError { .. } => 500,
            AppError::InternalError => 500,
            AppError::NotImplemented => 501,
        }
    }
}

} // verus!
