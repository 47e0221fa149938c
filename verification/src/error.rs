//! The errors that requests end in, and how storage failures map to them.
use vstd::prelude::*;

verus! {

/// Why a storage operation was refused.
pub enum DbFailure {
    /// A reference to a category that does not exist, or removal of a category
    /// that an expense still references.
    ForeignKeyViolation,
    /// A second row with the same key (an id, or a username).
    UniqueViolation,
    /// Any other failure, with its message.
    Other(String),
}

/// The error a request ends in.
pub enum AppError {
    /// The named resource does not exist.
    NotFound(&'static str),
    /// The storage failed in an unforeseen way; the message says how.
    Internal(String),
    /// The request conflicts with the stored data.
    Conflict(&'static str),
    /// The credentials or token were not accepted.
    Unauthorized(&'static str),
}

/// The message of a conflict on a foreign key.
pub open spec fn fk_conflict_text() -> &'static str {
    "category is referenced by an expense, or does not exist"
}

/// The message of a conflict on a unique key.
pub open spec fn unique_conflict_text() -> &'static str {
    "username already taken"
}

/// The error that a storage failure becomes.
pub open spec fn app_error_of(err: DbFailure) -> AppError {
    match err {
        DbFailure::ForeignKeyViolation => AppError::Conflict(fk_conflict_text()),
        DbFailure::UniqueViolation => AppError::Conflict(unique_conflict_text()),
        DbFailure::Other(msg) => AppError::Internal(msg),
    }
}

impl From<DbFailure> for AppError {
    fn from(err: DbFailure) -> (r: AppError) {
        match err {
            DbFailure::ForeignKeyViolation => AppError::Conflict(
                "category is referenced by an expense, or does not exist",
            ),
            DbFailure::UniqueViolation => AppError::Conflict("username already taken"),
            DbFailure::Other(msg) => AppError::Internal(msg),
        }
    }
}

impl vstd::std_specs::convert::FromSpecImpl<DbFailure> for AppError {
    open spec fn obeys_from_spec() -> bool {
        true
    }

    open spec fn from_spec(v: DbFailure) -> AppError {
        app_error_of(v)
    }
}

/// The HTTP status that an error is answered with.
pub open spec fn status_of(err: AppError) -> u16 {
    match err {
        AppError::NotFound(_) => 404,
        AppError::Internal(_) => 500,
        AppError::Conflict(_) => 409,
        AppError::Unauthorized(_) => 401,
    }
}

/// The body text that an error is answered with.
pub open spec fn body_of(err: AppError) -> Seq<char> {
    match err {
        AppError::NotFound(resource) => resource@ + " not found"@,
        AppError::Internal(msg) => msg@,
        AppError::Conflict(msg) => msg@,
        AppError::Unauthorized(msg) => msg@,
    }
}

impl AppError {
    /// The HTTP status of the response to this error.
    pub fn status(&self) -> (r: u16)
        ensures
            r == status_of(*self),
    {
        match self {
            AppError::NotFound(_) => 404,
            AppError::Internal(_) => 500,
            AppError::Conflict(_) => 409,
            AppError::Unauthorized(_) => 401,
        }
    }

    /// The body text of the response to this error.
    pub fn body(&self) -> (r: String)
        ensures
            r@ == body_of(*self),
    {
        match self {
            AppError::NotFound(resource) => String::from_str(resource).concat(" not found"),
            AppError::Internal(msg) => msg.clone(),
            AppError::Conflict(msg) => String::from_str(msg),
            AppError::Unauthorized(msg) => String::from_str(msg),
        }
    }
}

} // verus!
