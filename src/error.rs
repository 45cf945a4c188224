use vstd::prelude::*;

verus! {

/// Errors reported by the library and by the service around it.
#[derive(Debug)]
pub enum ApiError {
    InvalidInput(String),
    DatabaseError(String),
    SerializationError(String),
}

/// The message of the error that a malformed or impossible date yields.
pub open spec fn invalid_date_message() -> Seq<char> {
    "Invalid date format"@
}

/// The input error for a date that is malformed or not on the calendar.
pub open spec fn is_date_error(e: ApiError) -> bool {
    e matches ApiError::InvalidInput(m) && m@ == invalid_date_message()
}

/// The input error for a date that is malformed or not on the calendar.
pub fn date_error() -> (e: ApiError)
    ensures
        is_date_error(e),
{
    ApiError::InvalidInput(String::from_str("Invalid date format"))
}

impl ApiError {
    /// The message carried by the error.
    pub fn message(&self) -> (r: &String)
        ensures
            r == match self {
                ApiError::InvalidInput(m) => m,
                ApiError::DatabaseError(m) => m,
                ApiError::SerializationError(m) => m,
            },
    {
        match self {
            ApiError::InvalidInput(m) => m,
            ApiError::DatabaseError(m) => m,
            ApiError::SerializationError(m) => m,
        }
    }

    /// True for the error that a malformed request yields.
    pub fn is_invalid_input(&self) -> (r: bool)
        ensures
            r == (self is InvalidInput),
    {
        match self {
            ApiError::InvalidInput(_) => true,
            _ => false,
        }
    }
}

} // verus!
