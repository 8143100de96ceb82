//! Facts about the running program and its environment that the client reports
//! or consults.
use vstd::prelude::*;

verus! {

/// The environment variable that may hold the vault password.
pub const PASSWORD_VARIABLE: &'static str = "AGE_INBOX_PASSWORD";

/// How the program was compiled, for the startup log: `debug profile` when
/// debug assertions are on, `release profile` otherwise.
pub fn build_method(debug_assertions: bool) -> (r: &'static str)
    ensures
        r@ == (if debug_assertions {
            "debug profile"@
        } else {
            "release profile"@
        }),
{
    if debug_assertions {
        "debug profile"
    } else {
        "release profile"
    }
}

/// Where the vault password comes from.
pub enum PasswordSource {
    /// The value of `PASSWORD_VARIABLE`.
    Environment(String),
    /// A hidden prompt on the terminal.
    Prompt,
}

/// The password is taken from the environment when `PASSWORD_VARIABLE` is set
/// (to valid text), and asked for on the terminal otherwise.
pub fn password_source(from_environment: Option<String>) -> (r: PasswordSource)
    ensures
        match from_environment {
            Some(p) => r == PasswordSource::Environment(p),
            None => r == PasswordSource::Prompt,
        },
{
    match from_environment {
        Some(p) => PasswordSource::Environment(p),
        None => PasswordSource::Prompt,
    }
}

} // verus!
