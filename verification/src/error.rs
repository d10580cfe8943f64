//! A refusal, with the class a command's exit code is chosen by.

use vstd::prelude::*;

verus! {

/// Why a command stops: the arguments cannot mean what they ask, or the
/// request is one this tool declines.
#[derive(Debug)]
pub enum AppError {
    /// The arguments cannot mean anything the command does.
    Usage(String),
    /// The request is well formed and refused.
    Refused(String),
    /// A run did not finish and its target could not be put back.
    Unrecovered(String),
}

/// A refusal as plain values.
pub enum Fault {
    /// See `AppError::Usage`.
    Usage(Seq<char>),
    /// See `AppError::Refused`.
    Refused(Seq<char>),
    /// See `AppError::Unrecovered`.
    Unrecovered(Seq<char>),
}

impl View for AppError {
    type V = Fault;

    open spec fn view(&self) -> Fault {
        match self {
            AppError::Usage(m) => Fault::Usage(m@),
            AppError::Refused(m) => Fault::Refused(m@),
            AppError::Unrecovered(m) => Fault::Unrecovered(m@),
        }
    }
}

impl AppError {
    /// What the refusal says.
    pub fn message(&self) -> (m: String)
        ensures
            m@ == match self@ {
                Fault::Usage(t) => t,
                Fault::Refused(t) => t,
                Fault::Unrecovered(t) => t,
            },
    {
        match self {
            AppError::Usage(m) => crate::text::owned(m.as_str()),
            AppError::Refused(m) => crate::text::owned(m.as_str()),
            AppError::Unrecovered(m) => crate::text::owned(m.as_str()),
        }
    }

    /// The class, as one word.
    pub fn kind(&self) -> (k: &'static str)
        ensures
            k@ == match self@ {
                Fault::Usage(_) => "Usage"@,
                Fault::Refused(_) => "Refused"@,
                Fault::Unrecovered(_) => "Unrecovered"@,
            },
    {
        match self {
            AppError::Usage(_) => "Usage",
            AppError::Refused(_) => "Refused",
            AppError::Unrecovered(_) => "Unrecovered",
        }
    }
}

} // verus!
