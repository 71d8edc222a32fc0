//! The ways an invocation can fail.
use vstd::prelude::*;

verus! {

#[derive(Debug)]
pub enum AppError {
    /// A file or process could not be used; the text says why.
    IoError(String),
    /// The database text could not be read or written as structured data.
    JSONError(String),
    /// A needed environment variable is missing.
    EnvError(String),
    /// The caller's rights do not allow the operation.
    AclError(String),
    /// An outside command ended with this exit code (none if killed).
    CmdError(Option<i32>),
    /// The invocation's parameters do not name a target.
    ParamError(String),
}

} // verus!
