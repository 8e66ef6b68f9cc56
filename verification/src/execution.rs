//! The pipeline planner.
//!
//! Executing a statement means one pass over its entries in order, carrying
//! one piece of state: whether the previous stage's output was captured in a
//! pipe. Everything that *decides* — builtin interception, the
//! pipe-incompatibility of builtins, and how each external process's standard
//! streams are wired — is here and verified. Spawning the processes, running
//! the directory change, and reaping the children are operating-system work
//! that an unverified driver performs, step by step, in the order planned
//! here.

use vstd::prelude::*;

use crate::builtins::exec_builtin;
use crate::builtins::BuiltinAction;
use crate::builtins::BuiltinActionView;
use crate::builtins::ExecError;
use crate::tokens::stmt_view;
use crate::tokens::CommandParams;
use crate::tokens::CommandView;
use crate::tokens::Terminator;

verus! {

/// How one external process is to be spawned: the executable, its argument
/// vector verbatim, and how its standard streams are wired. Standard error
/// always inherits the caller's.
#[derive(Debug)]
pub struct SpawnSpec {
    pub invoking: String,
    pub args: Vec<String>,
    /// The previous stage's terminator was a pipe: read input from it.
    pub stdin_from_pipe: bool,
    /// This stage's terminator is a pipe: capture output for the next stage.
    pub stdout_to_pipe: bool,
}

/// The mathematical value of a `SpawnSpec`.
#[verifier::ext_equal]
pub struct SpawnSpecView {
    pub invoking: Seq<char>,
    pub args: Seq<Seq<char>>,
    pub stdin_from_pipe: bool,
    pub stdout_to_pipe: bool,
}

impl View for SpawnSpec {
    type V = SpawnSpecView;

    open spec fn view(&self) -> SpawnSpecView {
        SpawnSpecView {
            invoking: self.invoking@,
            args: self.args@.map_values(|a: String| a@),
            stdin_from_pipe: self.stdin_from_pipe,
            stdout_to_pipe: self.stdout_to_pipe,
        }
    }
}

/// One planned dispatch: run a builtin action in process, or spawn an
/// external process.
#[derive(Debug)]
pub enum ExecStep {
    RunBuiltin(BuiltinAction),
    Spawn(SpawnSpec),
}

/// The mathematical value of an `ExecStep`.
#[verifier::ext_equal]
pub enum ExecStepView {
    RunBuiltin(BuiltinActionView),
    Spawn(SpawnSpecView),
}

impl View for ExecStep {
    type V = ExecStepView;

    open spec fn view(&self) -> ExecStepView {
        match self {
            ExecStep::RunBuiltin(a) => ExecStepView::RunBuiltin(a@),
            ExecStep::Spawn(s) => ExecStepView::Spawn(s@),
        }
    }
}

/// The mathematical value of a planned step sequence.
pub open spec fn steps_view(v: Seq<ExecStep>) -> Seq<ExecStepView> {
    v.map_values(|s: ExecStep| s@)
}

/// The decision for one entry of a statement, given whether the previous
/// stage's output was captured in a pipe.
///
/// A builtin on the writing side of a pipe is an error and nothing is
/// dispatched for it. Otherwise a builtin resolves through the registry to
/// its in-process action — it has no stream wiring, and a pipe carried past
/// it stays carried. An external command becomes a spawn: it reads the
/// carried pipe if one is there, and its output is captured exactly when its
/// own terminator is a pipe, which is also what the next entry sees as
/// carried.
pub open spec fn spec_next_step(c: CommandView, t: Terminator, carries_pipe: bool) -> Result<
    (ExecStepView, bool),
    ExecError,
> {
    if c.is_builtin {
        if t == Terminator::Pipe {
            Err(ExecError::BuiltinPiped)
        } else if c.invoking == "cd"@ {
            if c.args.len() == 1 {
                Ok(
                    (
                        ExecStepView::RunBuiltin(BuiltinActionView::ChangeDir(c.args[0])),
                        carries_pipe,
                    ),
                )
            } else {
                Err(ExecError::BuiltinArgCount)
            }
        } else {
            Err(ExecError::UnsupportedBuiltin)
        }
    } else {
        Ok(
            (
                ExecStepView::Spawn(
                    SpawnSpecView {
                        invoking: c.invoking,
                        args: c.args,
                        stdin_from_pipe: carries_pipe,
                        stdout_to_pipe: t == Terminator::Pipe,
                    },
                ),
                t == Terminator::Pipe,
            ),
        )
    }
}

/// The plan for a whole statement from entry `i` on: the steps to dispatch,
/// in order, for the longest error-free prefix, and the error that stopped
/// planning, if one did. An error at entry `i` leaves the steps of earlier
/// entries standing: they are dispatched before the error is surfaced, as
/// the single pass of the executor dictates.
pub open spec fn spec_plan(
    entries: Seq<(CommandView, Terminator)>,
    i: int,
    carries_pipe: bool,
) -> (Seq<ExecStepView>, Option<ExecError>)
    decreases entries.len() - i,
{
    if i < 0 || i >= entries.len() {
        (Seq::empty(), Option::None)
    } else {
        match spec_next_step(entries[i].0, entries[i].1, carries_pipe) {
            Ok(sc) => {
                let rest = spec_plan(entries, i + 1, sc.1);
                (seq![sc.0] + rest.0, rest.1)
            },
            Err(e) => (Seq::empty(), Option::Some(e)),
        }
    }
}

/// Clone an argument vector, keeping its value.
fn clone_args(args: &Vec<String>) -> (r: Vec<String>)
    ensures
        r@.map_values(|a: String| a@) == args@.map_values(|a: String| a@),
{
    let mut r: Vec<String> = Vec::new();
    let mut i: usize = 0;
    while i < args.len()
        invariant
            i <= args@.len(),
            r@.len() == i,
            forall|k: int| 0 <= k < i ==> r@[k]@ == args@[k]@,
        decreases args@.len() - i,
    {
        r.push(args[i].clone());
        i = i + 1;
    }
    proof {
        assert(r@.map_values(|a: String| a@) =~~= args@.map_values(|a: String| a@));
    }
    r
}

impl CommandParams {
    /// The decision for this command as entry of a statement: its planned
    /// step and what the next entry sees as the carried pipe, or the error
    /// that aborts the statement. Exactly `spec_next_step` on the command's
    /// value.
    pub fn next_step(&self, terminator: &Terminator, carries_pipe: bool) -> (r: Result<
        (ExecStep, bool),
        ExecError,
    >)
        ensures
            (match (r, spec_next_step(self@, *terminator, carries_pipe)) {
                (Ok(sc), Ok(sv)) => sc.0@ == sv.0 && sc.1 == sv.1,
                (Err(e), Err(se)) => e == se,
                _ => false,
            }),
    {
        if self.is_builtin {
            if let Terminator::Pipe = *terminator {
                return Err(ExecError::BuiltinPiped);
            }
            match exec_builtin(self) {
                Ok(action) => Ok((ExecStep::RunBuiltin(action), carries_pipe)),
                Err(e) => Err(e),
            }
        } else {
            let to_pipe = (if let Terminator::Pipe = *terminator {
                true
            } else {
                false
            });
            let spawn = SpawnSpec {
                invoking: self.invoking.clone(),
                args: clone_args(&self.args),
                stdin_from_pipe: carries_pipe,
                stdout_to_pipe: to_pipe,
            };
            proof {
                assert(spawn@ =~~= (SpawnSpecView {
                    invoking: self@.invoking,
                    args: self@.args,
                    stdin_from_pipe: carries_pipe,
                    stdout_to_pipe: *terminator == Terminator::Pipe,
                }));
            }
            Ok((ExecStep::Spawn(spawn), to_pipe))
        }
    }

    /// Plan a whole statement: the steps to dispatch in order, and — when an
    /// entry cannot be dispatched — the error that ends the statement after
    /// the steps before it have run. Exactly `spec_plan` over the statement's
    /// value, started with no carried pipe.
    pub fn plan_statement(commands: &Vec<(CommandParams, Terminator)>) -> (r: (
        Vec<ExecStep>,
        Option<ExecError>,
    ))
        ensures
            steps_view(r.0@) == spec_plan(stmt_view(commands@), 0, false).0,
            r.1 == spec_plan(stmt_view(commands@), 0, false).1,
    {
        let ghost entries = stmt_view(commands@);
        let mut steps: Vec<ExecStep> = Vec::new();
        let mut carries_pipe = false;
        let mut i: usize = 0;
        proof {
            assert(steps_view(steps@) + spec_plan(entries, 0, false).0 =~~= spec_plan(
                entries,
                0,
                false,
            ).0);
        }
        while i < commands.len()
            invariant
                i <= commands@.len(),
                entries == stmt_view(commands@),
                entries.len() == commands@.len(),
                spec_plan(entries, 0, false).0 == steps_view(steps@) + spec_plan(
                    entries,
                    i as int,
                    carries_pipe,
                ).0,
                spec_plan(entries, 0, false).1 == spec_plan(entries, i as int, carries_pipe).1,
            decreases commands@.len() - i,
        {
            let pair = &commands[i];
            proof {
                assert(entries[i as int] == (pair.0@, pair.1));
            }
            match pair.0.next_step(&pair.1, carries_pipe) {
                Ok(sc) => {
                    let ghost pre_steps = steps_view(steps@);
                    let (step, carry) = sc;
                    steps.push(step);
                    carries_pipe = carry;
                    proof {
                        assert(steps_view(steps@) =~~= pre_steps.push(step@));
                        assert(pre_steps + (seq![step@] + spec_plan(
                            entries,
                            i as int + 1,
                            carry,
                        ).0) =~~= steps_view(steps@) + spec_plan(entries, i as int + 1, carry).0);
                    }
                    i = i + 1;
                },
                Err(e) => {
                    proof {
                        assert(spec_plan(entries, i as int, carries_pipe).0
                            =~~= Seq::<ExecStepView>::empty());
                        assert(steps_view(steps@) + Seq::<ExecStepView>::empty() =~~= steps_view(
                            steps@,
                        ));
                    }
                    return (steps, Some(e));
                },
            }
        }
        proof {
            assert(spec_plan(entries, i as int, carries_pipe).0 =~~= Seq::<ExecStepView>::empty());
            assert(steps_view(steps@) + Seq::<ExecStepView>::empty() =~~= steps_view(steps@));
        }
        (steps, Option::None)
    }
}

/// The spawn planned for entry `j` of a statement of external commands,
/// given what the entry before it carries.
pub open spec fn spec_external_spawn(
    entries: Seq<(CommandView, Terminator)>,
    j: int,
    first_carries: bool,
) -> ExecStepView {
    ExecStepView::Spawn(
        SpawnSpecView {
            invoking: entries[j].0.invoking,
            args: entries[j].0.args,
            stdin_from_pipe: if j == 0 {
                first_carries
            } else {
                entries[j - 1].1 == Terminator::Pipe
            },
            stdout_to_pipe: entries[j].1 == Terminator::Pipe,
        },
    )
}

proof fn lemma_plan_externals_from(entries: Seq<(CommandView, Terminator)>, i: int, carries: bool)
    requires
        0 <= i <= entries.len(),
        forall|j: int| i <= j < entries.len() ==> !entries[j].0.is_builtin,
        i > 0 ==> carries == (entries[i - 1].1 == Terminator::Pipe),
    ensures
        spec_plan(entries, i, carries).1 is None,
        spec_plan(entries, i, carries).0.len() == entries.len() - i,
        forall|j: int|
            i <= j < entries.len() ==> #[trigger] spec_plan(entries, i, carries).0[j - i]
                == spec_external_spawn(entries, j, i == j && carries),
    decreases entries.len() - i,
{
    if i < entries.len() {
        let step = (match spec_next_step(entries[i].0, entries[i].1, carries) {
            Ok(sc) => sc.0,
            Err(_) => arbitrary(),
        });
        let carry = entries[i].1 == Terminator::Pipe;
        lemma_plan_externals_from(entries, i + 1, carry);
        let whole = spec_plan(entries, i, carries).0;
        let rest = spec_plan(entries, i + 1, carry).0;
        assert(whole =~= seq![step] + rest);
        assert forall|j: int| i <= j < entries.len() implies #[trigger] whole[j - i]
            == spec_external_spawn(entries, j, i == j && carries) by {
            if j > i {
                assert(rest[j - (i + 1)] == spec_external_spawn(entries, j, i + 1 == j && carry));
                assert(spec_external_spawn(entries, j, i + 1 == j && carry)
                    == spec_external_spawn(entries, j, i == j && carries));
            }
        }
    }
}

/// Law: dispatch never short-circuits. A statement all of whose commands are
/// external plans exactly one spawn per entry — whatever any stage's exit
/// status may later be, every stage is dispatched — with no error, and each
/// spawn's streams wired by the terminators alone: a stage reads from a pipe
/// exactly when the entry before it ends in `|`, and writes to one exactly
/// when its own entry does.
pub proof fn lemma_no_short_circuit(entries: Seq<(CommandView, Terminator)>)
    requires
        forall|j: int| 0 <= j < entries.len() ==> !entries[j].0.is_builtin,
    ensures
        spec_plan(entries, 0, false).1 is None,
        spec_plan(entries, 0, false).0.len() == entries.len(),
        forall|j: int|
            0 <= j < entries.len() ==> #[trigger] spec_plan(entries, 0, false).0[j]
                == spec_external_spawn(entries, j, false),
{
    lemma_plan_externals_from(entries, 0, false);
    assert forall|j: int| 0 <= j < entries.len() implies #[trigger] spec_plan(entries, 0, false).0[j]
        == spec_external_spawn(entries, j, false) by {
        assert(spec_plan(entries, 0, false).0[j - 0] == spec_external_spawn(
            entries,
            j,
            0 == j && false,
        ));
    }
}

/// Law: a statement whose first entry is a builtin closed by a pipe fails
/// with the pipe-incompatibility error at once, and its plan holds no step:
/// nothing at all is dispatched for such a statement.
pub proof fn lemma_builtin_pipe_plans_nothing(entries: Seq<(CommandView, Terminator)>)
    requires
        entries.len() > 0,
        entries[0].0.is_builtin,
        entries[0].1 == Terminator::Pipe,
    ensures
        spec_plan(entries, 0, false).0 == Seq::<ExecStepView>::empty(),
        spec_plan(entries, 0, false).1 == Option::Some(ExecError::BuiltinPiped),
{
    assert(spec_next_step(entries[0].0, entries[0].1, false) == Err::<
        (ExecStepView, bool),
        ExecError,
    >(ExecError::BuiltinPiped));
}

} // verus!
