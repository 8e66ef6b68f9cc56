//! The builtin registry.
//!
//! A closed set of command names is handled in process instead of being
//! spawned: `cd` is the one implemented entry, while `set` and `pwd` are
//! reserved names whose dispatch fails with an "unsupported builtin" error.
//! Builtins have no output stream, so none of them may stand on the writing
//! side of a pipe; the executor enforces that rule.
//!
//! Dispatching a builtin here only *decides*: it validates the call and
//! returns the action to carry out (or the error). Performing the action —
//! changing the process-wide working directory — is left to the unverified
//! driver, which runs it only when an `Ok` action came back.

use vstd::prelude::*;

use crate::tokens::CommandParams;

verus! {

/// True of the names in the builtin registry. `cd` is implemented; `set` and
/// `pwd` are reserved: they are intercepted, and dispatching them fails.
pub open spec fn spec_is_builtin_name(s: Seq<char>) -> bool {
    s == "cd"@ || s == "set"@ || s == "pwd"@
}

/// An in-process action that a builtin resolves to. The driver performs it.
#[derive(Debug)]
pub enum BuiltinAction {
    /// Change the process-wide working directory to the given path.
    ChangeDir(String),
}

/// The mathematical value of a `BuiltinAction`.
pub enum BuiltinActionView {
    ChangeDir(Seq<char>),
}

impl View for BuiltinAction {
    type V = BuiltinActionView;

    open spec fn view(&self) -> BuiltinActionView {
        match self {
            BuiltinAction::ChangeDir(p) => BuiltinActionView::ChangeDir(p@),
        }
    }
}

/// Why dispatch of a statement failed before any process was spawned.
#[derive(Debug, PartialEq, Eq, Structural, Clone, Copy)]
pub enum ExecError {
    /// A builtin stood on the writing side of a pipe; builtins have no output.
    BuiltinPiped,
    /// The command was flagged as a builtin but its name has no implementation.
    UnsupportedBuiltin,
    /// `cd` takes exactly one argument, the path to change to.
    BuiltinArgCount,
}

/// True when the two string slices hold the same characters.
fn str_eq(a: &str, b: &str) -> (r: bool)
    ensures
        r == (a@ == b@),
{
    let a_len = a.unicode_len();
    let b_len = b.unicode_len();
    if a_len != b_len {
        proof {
            assert(a@ != b@) by {
                if a@ == b@ {
                    assert(a@.len() == b@.len());
                }
            }
        }
        return false;
    }
    let mut i: usize = 0;
    while i < a_len
        invariant
            i <= a_len,
            a_len == a@.len(),
            b_len == b@.len(),
            a_len == b_len,
            forall|k: int| 0 <= k < i ==> a@[k] == b@[k],
        decreases a_len - i,
    {
        if a.get_char(i) != b.get_char(i) {
            proof {
                assert(a@[i as int] != b@[i as int]);
            }
            return false;
        }
        i = i + 1;
    }
    proof {
        assert(a@ =~= b@);
    }
    true
}

/// True of names the registry intercepts; the tokenizer flags such commands.
pub fn is_builtin_name(name: &str) -> (r: bool)
    ensures
        r == spec_is_builtin_name(name@),
{
    str_eq(name, "cd") || str_eq(name, "set") || str_eq(name, "pwd")
}

/// The directory-change builtin: takes exactly one argument, the path to
/// change to; any other count is an argument-count error. On success the
/// returned action names that path; the working directory itself is only
/// changed when the driver performs the action, so a failed call leaves it
/// untouched.
pub fn cd(args: &Vec<String>) -> (r: Result<BuiltinAction, ExecError>)
    ensures
        args@.len() == 1 ==> (r matches Ok(a) && a@ == BuiltinActionView::ChangeDir(args[0]@)),
        args@.len() != 1 ==> r == Err::<BuiltinAction, ExecError>(ExecError::BuiltinArgCount),
{
    if args.len() != 1 {
        return Err(ExecError::BuiltinArgCount);
    }
    Ok(BuiltinAction::ChangeDir(args[0].clone()))
}

/// Dispatch a command through the builtin registry: `cd` resolves to its
/// action, every other name is unsupported. The returned action is what the
/// driver must perform; nothing is performed here.
pub fn exec_builtin(command: &CommandParams) -> (r: Result<BuiltinAction, ExecError>)
    ensures
        command@.invoking == "cd"@ && command@.args.len() == 1 ==> (r matches Ok(a) && a@
            == BuiltinActionView::ChangeDir(command@.args[0])),
        command@.invoking == "cd"@ && command@.args.len() != 1 ==> r == Err::<
            BuiltinAction,
            ExecError,
        >(ExecError::BuiltinArgCount),
        command@.invoking != "cd"@ ==> r == Err::<BuiltinAction, ExecError>(
            ExecError::UnsupportedBuiltin,
        ),
{
    if str_eq(command.invoking.as_str(), "cd") {
        proof {
            if command.args@.len() == 1 {
                assert(command@.args[0] == command.args[0]@);
            }
        }
        cd(&command.args)
    } else {
        Err(ExecError::UnsupportedBuiltin)
    }
}

} // verus!
