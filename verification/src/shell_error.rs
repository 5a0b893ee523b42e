//! The errors of the shell and the exit status that each one stands for.
use vstd::prelude::*;

verus! {

/// An error met while reading or running a command line.
#[derive(Debug, Clone, PartialEq)]
pub enum ShellError {
    QuoteNotClosed(String),
    ErrorWhileRestoringString,
    CommandError(String),
    EmptyCommand,
    UnknownError(String),
    CommandFirst,
    CommandAfterOperator,
    EmptyVar,
    VarNotFound(String),
}

/// The mathematical value of a `ShellError`: its variant, with the
/// characters of its text where it carries one.
pub enum SpecShellError {
    QuoteNotClosed(Seq<char>),
    ErrorWhileRestoringString,
    CommandError(Seq<char>),
    EmptyCommand,
    UnknownError(Seq<char>),
    CommandFirst,
    CommandAfterOperator,
    EmptyVar,
    VarNotFound(Seq<char>),
}

impl View for ShellError {
    type V = SpecShellError;

    open spec fn view(&self) -> SpecShellError {
        match self {
            ShellError::QuoteNotClosed(s) => SpecShellError::QuoteNotClosed(s@),
            ShellError::ErrorWhileRestoringString => SpecShellError::ErrorWhileRestoringString,
            ShellError::CommandError(s) => SpecShellError::CommandError(s@),
            ShellError::EmptyCommand => SpecShellError::EmptyCommand,
            ShellError::UnknownError(s) => SpecShellError::UnknownError(s@),
            ShellError::CommandFirst => SpecShellError::CommandFirst,
            ShellError::CommandAfterOperator => SpecShellError::CommandAfterOperator,
            ShellError::EmptyVar => SpecShellError::EmptyVar,
            ShellError::VarNotFound(s) => SpecShellError::VarNotFound(s@),
        }
    }
}

/// The exit status that stands for an error; `VarNotFound` has none.
pub open spec fn error_status(e: SpecShellError) -> Option<i32> {
    match e {
        SpecShellError::QuoteNotClosed(_) => Some(1),
        SpecShellError::ErrorWhileRestoringString => Some(2),
        SpecShellError::CommandError(_) => Some(3),
        SpecShellError::EmptyCommand => Some(4),
        SpecShellError::CommandFirst => Some(5),
        SpecShellError::CommandAfterOperator => Some(6),
        SpecShellError::EmptyVar => Some(7),
        SpecShellError::UnknownError(_) => Some(255),
        SpecShellError::VarNotFound(_) => None,
    }
}

/// The text shown for an error.
pub open spec fn error_message(e: SpecShellError) -> Seq<char> {
    "Error: "@ + match e {
        SpecShellError::QuoteNotClosed(s) => "quote unclosed detected :: "@ + s,
        SpecShellError::ErrorWhileRestoringString => "unexpected error while restoring strings"@,
        SpecShellError::CommandError(s) => "command error :: "@ + s,
        SpecShellError::EmptyCommand => "found an empty command"@,
        SpecShellError::UnknownError(s) => "Unknown error append in :: "@ + s,
        SpecShellError::CommandFirst => "instruction has started with an operator and not a command"@,
        SpecShellError::CommandAfterOperator => "operator can't be followed by an operator"@,
        SpecShellError::EmptyVar => "encountered an empty var"@,
        SpecShellError::VarNotFound(s) => "variable not found :: "@ + s,
    }
}

impl ShellError {
    /// The text shown for this error.
    pub fn to_string(&self) -> (res: String)
        ensures
            res@ == error_message(self@),
    {
        let mut res = String::from_str("Error: ");
        match self {
            ShellError::QuoteNotClosed(s) => {
                res.append("quote unclosed detected :: ");
                res.append(s.as_str());
            },
            ShellError::ErrorWhileRestoringString => {
                res.append("unexpected error while restoring strings");
            },
            ShellError::CommandError(s) => {
                res.append("command error :: ");
                res.append(s.as_str());
            },
            ShellError::EmptyCommand => {
                res.append("found an empty command");
            },
            ShellError::UnknownError(s) => {
                res.append("Unknown error append in :: ");
                res.append(s.as_str());
            },
            ShellError::CommandFirst => {
                res.append("instruction has started with an operator and not a command");
            },
            ShellError::CommandAfterOperator => {
                res.append("operator can't be followed by an operator");
            },
            ShellError::EmptyVar => {
                res.append("encountered an empty var");
            },
            ShellError::VarNotFound(s) => {
                res.append("variable not found :: ");
                res.append(s.as_str());
            },
        }
        proof {
            assert(res@ =~= error_message(self@));
        }
        res
    }

    /// Turns an error into the exit status that stands for it, and passes a
    /// success through unchanged. A `VarNotFound` error has no status.
    pub fn handle_shell_error<T>(result: Result<T, Self>) -> (res: Result<T, i32>)
        requires
            result matches Err(e) ==> error_status(e@) is Some,
        ensures
            match result {
                Ok(v) => res == Ok::<T, i32>(v),
                Err(e) => res == Err::<T, i32>(error_status(e@)->0),
            },
    {
        match result {
            Ok(res) => Ok(res),
            Err(error) => match error {
                ShellError::QuoteNotClosed(_) => Err(1),
                ShellError::ErrorWhileRestoringString => Err(2),
                ShellError::CommandError(_) => Err(3),
                ShellError::EmptyCommand => Err(4),
                ShellError::CommandFirst => Err(5),
                ShellError::CommandAfterOperator => Err(6),
                ShellError::EmptyVar => Err(7),
                ShellError::UnknownError(_) => Err(255),
                ShellError::VarNotFound(_) => unreached(),
            },
        }
    }
}

} // verus!
