//! The observed result of one external tool invocation, and the shaping of
//! a connect or disconnect outcome from it.
//!
//! The library never spawns a process: the caller runs the tool and hands
//! the exit status and captured streams in as plain values.

use vstd::prelude::*;

verus! {

/// What an external command produced: its exit status and its two
/// captured output streams, already decoded to text.
pub struct CmdResult {
    /// The command exited successfully.
    pub success: bool,
    /// The captured standard output.
    pub stdout: String,
    /// The captured standard error.
    pub stderr: String,
}

/// Shapes the reported outcome of a connect or disconnect operation: on a
/// successful exit the raw output stream is the result, on a failing exit
/// the raw error stream is the reported failure, and a command that could
/// not be run at all reports the spawn error.
pub fn command_outcome(invocation: Result<CmdResult, String>) -> (r: Result<String, String>)
    ensures
        invocation matches Ok(o) ==> ({
            &&& o.success ==> (r matches Ok(out) && out@ == o.stdout@)
            &&& !o.success ==> (r matches Err(e) && e@ == o.stderr@)
        }),
        invocation matches Err(e) ==> (r matches Err(msg) && msg@ == "Error al ejecutar: "@
            + e@),
{
    match invocation {
        Ok(o) => {
            if o.success {
                Ok(o.stdout)
            } else {
                Err(o.stderr)
            }
        },
        Err(e) => {
            let mut msg = String::from_str("Error al ejecutar: ");
            msg.append(e.as_str());
            Err(msg)
        },
    }
}

} // verus!
