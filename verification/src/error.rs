use vstd::prelude::*;

verus! {

/// The two error kinds of the service: a user-facing validation error that
/// carries a client-safe message, and an internal error whose cause is never
/// shown to clients.
#[derive(Debug)]
pub enum AppError {
    UnspecifiedErr,
    PublishableErr(String),
}

impl AppError {
    /// The text a client may see: the publishable message, or a fixed
    /// generic one that leaks nothing about an internal failure.
    pub open spec fn spec_public_message(&self) -> Seq<char> {
        match self {
            AppError::PublishableErr(s) => s@,
            AppError::UnspecifiedErr => "system error"@,
        }
    }

    pub fn public_message(&self) -> (m: String)
        ensures
            m@ == self.spec_public_message(),
    {
        match self {
            AppError::PublishableErr(s) => s.clone(),
            AppError::UnspecifiedErr => "system error".to_owned(),
        }
    }

    /// Validation errors are client faults; everything else is a server fault.
    pub fn status_code(&self) -> (c: u16)
        ensures
            c == 400 <==> self is PublishableErr,
            c == 400 || c == 500,
    {
        match self {
            AppError::PublishableErr(_) => 400,
            AppError::UnspecifiedErr => 500,
        }
    }
}

/// A plain error wrapping a single message string.
#[derive(Debug)]
pub struct SimpleError(pub String);

impl SimpleError {
    pub fn message(&self) -> (m: String)
        ensures
            m@ == self.0@,
    {
        self.0.clone()
    }
}

} // verus!
