//! Shell discovery: the user's default shell and whether an executable can
//! be found on the search path.

use vstd::prelude::*;
use vstd::string::StrSliceExecFns;

verus! {

/// The user's default shell: the value of the `SHELL` environment variable
/// where the caller found one, else `/bin/sh`. The caller reads the
/// environment and hands the result in, so the choice itself is checked.
pub fn get_default_shell(shell_env: Option<String>) -> (r: String)
    ensures
        match shell_env {
            Some(s) => r@ == s@,
            None => r@ == "/bin/sh"@,
        },
{
    match shell_env {
        Some(s) => s,
        None => "/bin/sh".to_owned(),
    }
}

/// Whether an executable with the given name exists on the search path.
///
/// Relies on which::which: it resolves the name against the `PATH`
/// directories (or takes it as a path) and answers whether an executable
/// file is there. The answer depends on the machine's state at the moment
/// of the call, so nothing more is stated of it.
#[verifier::external_body]
pub fn executable_exists(name: &str) -> bool {
    which::which(name).is_ok()
}

} // verus!
