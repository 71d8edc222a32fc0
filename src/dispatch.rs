//! The steps of an operation that changes the system: privilege check,
//! confirmation, execution and saving, each decided from what came before.
use vstd::prelude::*;

use crate::db::names_view;
use crate::error::AppError;
use crate::types::OpType;
use crate::util::{
    NOT_ROOT_DENIED, ROOT_BUILD_DENIED, action_word, check_privileges, confirmation_accepted,
    confirmation_prompt, group_option, joined, op_flag, recovery_command, root_build_refused,
    root_required,
};

verus! {

/// A sync or remove invocation, with its targets resolved.
pub struct Invocation {
    pub op: OpType,
    /// The packages are from the external repository.
    pub aur: bool,
    pub debug: bool,
    /// Change the database only, not the system.
    pub db_only: bool,
    /// Record the operation in the database.
    pub save: bool,
    /// The targets were read from the database rather than named.
    pub from_db: bool,
    /// The names given on the command line, sorted, each once.
    pub names: Vec<String>,
    pub groups: Vec<String>,
}

/// What to do next.
pub enum Action {
    /// Stop with this error; nothing was changed.
    Fail(AppError),
    /// Print the question, read one byte, and hand it to `after_answer`.
    Ask(String),
    /// Install or remove the packages, and hand the outcome to `after_execute`.
    Execute,
    /// Write the operation to the database, and hand the outcome to `after_save`.
    Save,
    /// Stop with success.
    Finish,
    /// Stop with the error that the execution gave.
    Abort,
    /// The system was changed but the database not: report the error with
    /// this command, which repairs the database, and stop with the error.
    Recover(String),
}

/// The first step: the privilege rules, then database-only mode, then the
/// confirmation gate for targets read from the database.
pub fn begin(inv: &Invocation, is_root: bool) -> (r: Action)
    ensures
        root_build_refused(inv.op, inv.aur, is_root, inv.debug, inv.db_only) ==> (r matches Action::Fail(
            AppError::AclError(m),
        ) && m@ == ROOT_BUILD_DENIED@),
        root_required(inv.op, inv.aur, is_root, inv.debug, inv.db_only) ==> (r matches Action::Fail(
            AppError::AclError(m),
        ) && m@ == NOT_ROOT_DENIED@),
        !root_build_refused(inv.op, inv.aur, is_root, inv.debug, inv.db_only) && !root_required(
            inv.op,
            inv.aur,
            is_root,
            inv.debug,
            inv.db_only,
        ) ==> {
            &&& inv.db_only && inv.save ==> r is Save
            &&& inv.db_only && !inv.save ==> r is Finish
            &&& !inv.db_only && inv.from_db ==> (r matches Action::Ask(q) && q@ == "This will "@
                + action_word(inv.op) + " many packages. Do you want to continue? [y/N]"@)
            &&& !inv.db_only && !inv.from_db ==> r is Execute
        },
{
    match check_privileges(&inv.op, inv.aur, is_root, inv.debug, inv.db_only) {
        Err(e) => Action::Fail(e),
        Ok(()) => {
            if inv.db_only {
                if inv.save {
                    Action::Save
                } else {
                    Action::Finish
                }
            } else if inv.from_db {
                Action::Ask(confirmation_prompt(&inv.op))
            } else {
                Action::Execute
            }
        },
    }
}

/// After the question: only `y` or `Y` goes on; any other answer, or none,
/// ends with success and nothing changed.
pub fn after_answer(inv: &Invocation, answer: Option<u8>) -> (r: Action)
    ensures
        (answer == Some(121u8) || answer == Some(89u8)) ==> r is Execute,
        !(answer == Some(121u8) || answer == Some(89u8)) ==> r is Finish,
{
    if confirmation_accepted(answer) {
        Action::Execute
    } else {
        Action::Finish
    }
}

/// After the system operation: a failure stops the invocation unsaved;
/// a success is saved when saving was asked for.
pub fn after_execute(inv: &Invocation, succeeded: bool) -> (r: Action)
    ensures
        !succeeded ==> r is Abort,
        succeeded && inv.save ==> r is Save,
        succeeded && !inv.save ==> r is Finish,
{
    if !succeeded {
        Action::Abort
    } else if inv.save {
        Action::Save
    } else {
        Action::Finish
    }
}

/// After saving: a failed save is reported with the command that repeats
/// the operation on the database alone.
pub fn after_save(inv: &Invocation, saved: bool) -> (r: Action)
    ensures
        saved ==> r is Finish,
        !saved ==> (r matches Action::Recover(c) && c@ == "raurman "@ + op_flag(inv.op) + " "@ + joined(
            names_view(inv.names@),
            " "@,
        ) + " --save"@ + group_option(names_view(inv.groups@)) + " --db-only"@),
{
    if saved {
        Action::Finish
    } else {
        Action::Recover(recovery_command(&inv.op, &inv.names, &inv.groups))
    }
}

} // verus!
