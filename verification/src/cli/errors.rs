//! How the command line ends.
use crate::protocol::DoctorResponse;
use crate::text;
use vstd::prelude::*;

verus! {

/// What the command line ends with.
#[derive(Debug, PartialEq, Eq)]
pub struct CliError {
    pub exit_code: i32,
    pub message: String,
}

/// What an error holds.
pub struct CliErrorView {
    pub exit_code: i32,
    pub message: Seq<char>,
}

impl CliError {
    /// What the error holds.
    pub open spec fn view(&self) -> CliErrorView {
        CliErrorView { exit_code: self.exit_code, message: self.message@ }
    }

    /// An error of this side.
    pub fn local(message: String) -> (r: CliError)
        ensures
            r@ == (CliErrorView { exit_code: 2, message: message@ }),
    {
        CliError { exit_code: 2, message }
    }

    /// The server cannot be reached.
    pub fn transport(message: String) -> (r: CliError)
        ensures
            r@ == (CliErrorView { exit_code: 6, message: message@ }),
    {
        CliError { exit_code: 6, message }
    }

    /// What the server answers cannot be read.
    pub fn unreadable(message: String) -> (r: CliError)
        ensures
            r@ == (CliErrorView { exit_code: 7, message: message@ }),
    {
        CliError { exit_code: 7, message }
    }

    /// The server refuses, with the status told by number and by name.
    pub fn refused(status: u16, name: &str, body: &str) -> (r: CliError)
        ensures
            r@ == (CliErrorView {
                exit_code: status_code(status),
                message: "server returned "@ + name@ + ": "@ + body@,
            }),
    {
        CliError {
            exit_code: exit_code_for_status(status),
            message: text::join4("server returned ", name, ": ", body),
        }
    }
}

/// The exit code for a status: one for missing rights, one for missing or gone things, one for
/// conflicts, and one for all else.
pub open spec fn status_code(status: u16) -> i32 {
    if status == 401 || status == 403 {
        3
    } else if status == 404 || status == 410 {
        4
    } else if status == 409 || status == 412 {
        5
    } else {
        7
    }
}

/// The exit code for a status with which the server refuses.
pub fn exit_code_for_status(status: u16) -> (r: i32)
    ensures
        r == status_code(status),
{
    match status {
        401 | 403 => 3,
        404 | 410 => 4,
        409 | 412 => 5,
        _ => 7,
    }
}

/// How a diagnosis ends a command.
pub open spec fn is_doctor_exit(response: DoctorResponse, r: i32) -> bool {
    r == (if response.healthy {
        0int
    } else {
        8int
    })
}

/// The exit code for a diagnosis.
pub fn doctor_exit_code(response: &DoctorResponse) -> (r: i32)
    ensures
        is_doctor_exit(*response, r),
{
    if response.healthy {
        0
    } else {
        8
    }
}

/// What a diagnosis comes to.
pub open spec fn is_doctor_outcome(response: DoctorResponse, r: Result<(), CliError>) -> bool {
    match r {
        Ok(()) => response.healthy,
        Err(error) => !response.healthy && error@ == (CliErrorView {
            exit_code: 8,
            message: "doctor found unhealthy conditions"@,
        }),
    }
}

/// What the command line ends with after a diagnosis.
pub fn doctor_outcome(response: &DoctorResponse) -> (r: Result<(), CliError>)
    ensures
        is_doctor_outcome(*response, r),
{
    let exit_code: i32 = doctor_exit_code(response);
    if exit_code == 0 {
        Ok(())
    } else {
        Err(CliError { exit_code, message: "doctor found unhealthy conditions".to_owned() })
    }
}

/// The error for a credential that was issued and could not be kept: its identifier, never its
/// secret, and whether it was revoked again.
pub fn unkept_credential(id: &str, problem: &str, revoked: bool) -> (r: CliError)
    ensures
        r@ == (CliErrorView {
            exit_code: 2,
            message: "failed to publish credential "@ + id@ + " locally: "@ + problem@ + "; "@ + (if revoked {
                "the newly issued credential was revoked"@
            } else {
                "cleanup revocation could not be confirmed; manually revoke this credential ID"@
            }) + ": "@ + id@,
        }),
{
    let head: String = text::join5("failed to publish credential ", id, " locally: ", problem, "; ");
    let cleanup: &str = if revoked {
        "the newly issued credential was revoked"
    } else {
        "cleanup revocation could not be confirmed; manually revoke this credential ID"
    };
    let message: String = text::join4(head.as_str(), cleanup, ": ", id);
    CliError::local(message)
}

/// No two of the documented categories of refusal share an exit code, and none of them is success.
pub proof fn law_exit_categories_are_apart(status: u16)
    ensures
        status_code(status) == 3 <==> status == 401 || status == 403,
        status_code(status) == 4 <==> status == 404 || status == 410,
        status_code(status) == 5 <==> status == 409 || status == 412,
        status_code(status) != 0,
{
}

/// A command that finds everything healthy ends well, and one that does not ends with an exit of its own.
pub proof fn law_unhealthy_diagnoses_fail(response: DoctorResponse, code: i32, r: Result<(), CliError>, status: u16)
    requires
        is_doctor_exit(response, code),
        is_doctor_outcome(response, r),
    ensures
        response.healthy <==> code == 0,
        response.healthy <==> r is Ok,
        r is Err ==> r->Err_0@.exit_code == code,
        !response.healthy ==> code != status_code(status) && code != 0,
{
}

} // verus!
