use mash::builtins::exec_builtin;
use mash::builtins::BuiltinAction;
use mash::builtins::ExecError;
use mash::execution::ExecStep;
use mash::tokens::CommandParams;
use mash::tokens::Terminator;

fn command(invoking: &str, args: &[&str], is_builtin: bool) -> CommandParams {
    CommandParams {
        invoking: invoking.to_string(),
        args: args.iter().map(|a| a.to_string()).collect(),
        is_builtin,
    }
}

#[test]
fn piped_builtin_plans_nothing() {
    let stmt = CommandParams::tokenize("cd / | ls\n").unwrap();
    assert!(stmt[0].0.is_builtin);
    assert_eq!(stmt[0].1, Terminator::Pipe);
    let (steps, err) = CommandParams::plan_statement(&stmt);
    assert!(steps.is_empty());
    assert_eq!(err, Some(ExecError::BuiltinPiped));
}

#[test]
fn sequential_stages_are_both_planned() {
    let stmt = CommandParams::tokenize("false; echo done").unwrap();
    let (steps, err) = CommandParams::plan_statement(&stmt);
    assert_eq!(err, None);
    assert_eq!(steps.len(), 2);
    match &steps[0] {
        ExecStep::Spawn(s) => {
            assert_eq!(s.invoking, "false");
            assert!(s.args.is_empty());
            assert!(!s.stdin_from_pipe);
            assert!(!s.stdout_to_pipe);
        },
        _ => panic!("first stage should spawn"),
    }
    match &steps[1] {
        ExecStep::Spawn(s) => {
            assert_eq!(s.invoking, "echo");
            assert_eq!(s.args, vec!["done".to_string()]);
            assert!(!s.stdin_from_pipe);
            assert!(!s.stdout_to_pipe);
        },
        _ => panic!("second stage should spawn"),
    }
}

#[test]
fn pipeline_wires_stdio_in_order() {
    let stmt = CommandParams::tokenize("a | b | c\n").unwrap();
    let (steps, err) = CommandParams::plan_statement(&stmt);
    assert_eq!(err, None);
    assert_eq!(steps.len(), 3);
    let wiring: Vec<(bool, bool)> = steps
        .iter()
        .map(|s| match s {
            ExecStep::Spawn(sp) => (sp.stdin_from_pipe, sp.stdout_to_pipe),
            _ => panic!("all stages should spawn"),
        })
        .collect();
    assert_eq!(wiring, vec![(false, true), (true, true), (true, false)]);
}

#[test]
fn builtin_leaves_a_carried_pipe_standing() {
    // A builtin has no stdio wiring: a pipe carried past it reaches the next
    // external stage, as the single-pass executor dictates.
    let stmt = CommandParams::tokenize("ls / | cd /tmp ; cat\n").unwrap();
    let (steps, err) = CommandParams::plan_statement(&stmt);
    assert_eq!(err, None);
    assert_eq!(steps.len(), 3);
    assert!(matches!(&steps[1], ExecStep::RunBuiltin(BuiltinAction::ChangeDir(p)) if p == "/tmp"));
    match &steps[2] {
        ExecStep::Spawn(s) => {
            assert_eq!(s.invoking, "cat");
            assert!(s.stdin_from_pipe);
        },
        _ => panic!("last stage should spawn"),
    }
}

#[test]
fn plan_stops_at_the_failing_entry() {
    let stmt = CommandParams::tokenize("ls; cd; echo x\n").unwrap();
    let (steps, err) = CommandParams::plan_statement(&stmt);
    assert_eq!(steps.len(), 1);
    assert_eq!(err, Some(ExecError::BuiltinArgCount));
}

#[test]
fn cd_requires_exactly_one_argument() {
    let zero = command("cd", &[], true);
    assert_eq!(exec_builtin(&zero).unwrap_err(), ExecError::BuiltinArgCount);
    let two = command("cd", &["a", "b"], true);
    assert_eq!(exec_builtin(&two).unwrap_err(), ExecError::BuiltinArgCount);
    let one = command("cd", &["/tmp"], true);
    match exec_builtin(&one) {
        Ok(BuiltinAction::ChangeDir(p)) => assert_eq!(p, "/tmp"),
        other => panic!("cd with one argument should resolve, got {:?}", other),
    }
}

#[test]
fn reserved_builtins_are_unsupported() {
    let set = command("set", &["x"], true);
    assert_eq!(exec_builtin(&set).unwrap_err(), ExecError::UnsupportedBuiltin);
    let pwd = command("pwd", &[], true);
    assert_eq!(exec_builtin(&pwd).unwrap_err(), ExecError::UnsupportedBuiltin);
}

#[test]
fn next_step_rejects_a_piped_builtin() {
    let cd = command("cd", &["/"], true);
    let r = cd.next_step(&Terminator::Pipe, false);
    assert_eq!(r.unwrap_err(), ExecError::BuiltinPiped);
}

#[test]
fn next_step_spawn_carries_its_own_pipe() {
    let ls = command("ls", &["-l"], false);
    let (step, carry) = ls.next_step(&Terminator::Pipe, false).unwrap();
    assert!(carry);
    match step {
        ExecStep::Spawn(s) => {
            assert_eq!(s.invoking, "ls");
            assert_eq!(s.args, vec!["-l".to_string()]);
            assert!(!s.stdin_from_pipe);
            assert!(s.stdout_to_pipe);
        },
        _ => panic!("external command should spawn"),
    }
    let (_, carry2) = ls.next_step(&Terminator::EndCmd, true).unwrap();
    assert!(!carry2);
}
