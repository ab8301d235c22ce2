//! The gateway's error type.

use vstd::prelude::*;

verus! {

/// What can go wrong while the gateway runs: an I/O failure, carried as
/// its message, or any other failure described in words.
#[derive(Debug)]
pub enum AppError {
    IoError(String),
    Other(String),
}

impl AppError {
    /// The error's message.
    pub fn message(&self) -> (r: &String)
        ensures
            (match self {
                AppError::IoError(m) => r@ == m@,
                AppError::Other(m) => r@ == m@,
            }),
    {
        match self {
            AppError::IoError(m) => m,
            AppError::Other(m) => m,
        }
    }
}

} // verus!
