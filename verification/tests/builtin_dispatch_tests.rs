use just_bash::builtin_dispatch::{
    dispatch_builtin, handle_source_stub, handle_type_stub, BuiltinAction, BuiltinDispatchContext,
    BuiltinHandler,
};

fn s(v: &[&str]) -> Vec<String> {
    v.iter().map(|x| x.to_string()).collect()
}

fn ctx(posix: bool) -> BuiltinDispatchContext {
    BuiltinDispatchContext {
        posix,
        functions: s(&["myfn", "cd"]),
        aliases: Some(vec![("ll".to_string(), "ls -l".to_string())]),
        builtins: s(&["cd", "echo", "type", "command", "builtin"]),
    }
}

fn done(a: Option<BuiltinAction>) -> (String, String, i32) {
    match a {
        Some(BuiltinAction::Done(r)) => (r.stdout, r.stderr, r.exit_code),
        _ => panic!("expected a finished builtin"),
    }
}

fn run(a: Option<BuiltinAction>) -> (String, Vec<String>, bool, bool) {
    match a {
        Some(BuiltinAction::Run { command, args, skip_functions, use_default_path }) => {
            (command, args, skip_functions, use_default_path)
        }
        _ => panic!("expected a command run"),
    }
}

#[test]
fn special_builtins_beat_functions() {
    let c = ctx(false);
    assert!(matches!(dispatch_builtin(&c, "export", &[], false), Some(BuiltinAction::Handler(BuiltinHandler::Export))));
    assert!(matches!(dispatch_builtin(&c, "typeset", &[], false), Some(BuiltinAction::Handler(BuiltinHandler::Declare))));
    assert!(matches!(dispatch_builtin(&c, "readarray", &[], false), Some(BuiltinAction::Handler(BuiltinHandler::Mapfile))));
}

#[test]
fn functions_override_simple_builtins() {
    let c = ctx(false);
    assert_eq!(done(dispatch_builtin(&c, "cd", &s(&["/x"]), false)), (String::new(), String::new(), 0));
    assert!(matches!(dispatch_builtin(&c, "cd", &s(&["/x"]), true), Some(BuiltinAction::Handler(BuiltinHandler::Cd))));
    assert_eq!(done(dispatch_builtin(&c, "myfn", &[], false)).2, 0);
    assert!(dispatch_builtin(&c, "myfn", &[], true).is_none());
    assert!(dispatch_builtin(&c, "ls", &[], false).is_none());
}

#[test]
fn true_false_and_eval() {
    let c = ctx(false);
    assert_eq!(done(dispatch_builtin(&c, ":", &[], false)).2, 0);
    assert_eq!(done(dispatch_builtin(&c, "false", &[], false)).2, 1);
    assert_eq!(done(dispatch_builtin(&ctx(true), "eval", &s(&["x"]), false)).2, 0);
}

#[test]
fn exec_and_command_run_commands() {
    let c = ctx(false);
    assert_eq!(run(dispatch_builtin(&c, "exec", &s(&["ls", "-a"]), false)), ("ls".to_string(), s(&["-a"]), false, false));
    assert_eq!(run(dispatch_builtin(&c, "command", &s(&["-p", "ls", "x"]), false)), ("ls".to_string(), s(&["x"]), true, true));
    assert_eq!(run(dispatch_builtin(&c, "command", &s(&["--", "-p"]), false)), ("-p".to_string(), vec![], true, false));
    assert_eq!(done(dispatch_builtin(&c, "command", &s(&["-p"]), false)).2, 0);
}

#[test]
fn command_v_describes_names() {
    let c = ctx(false);
    assert_eq!(
        done(dispatch_builtin(&c, "command", &s(&["-v", "echo", "nope", "myfn"]), false)),
        ("echo\nmyfn\n".to_string(), String::new(), 1)
    );
    assert_eq!(
        done(dispatch_builtin(&c, "command", &s(&["-pV", "echo", "myfn"]), false)),
        ("echo is a shell builtin\nmyfn is a function\n".to_string(), String::new(), 0)
    );
}

#[test]
fn builtin_builtin_checks_names() {
    let c = ctx(false);
    assert_eq!(run(dispatch_builtin(&c, "builtin", &s(&["--", "echo", "hi"]), false)), ("echo".to_string(), s(&["hi"]), true, false));
    assert_eq!(
        done(dispatch_builtin(&c, "builtin", &s(&["ls"]), false)),
        (String::new(), "bash: builtin: ls: not a shell builtin\n".to_string(), 1)
    );
    assert_eq!(done(dispatch_builtin(&c, "builtin", &s(&["--"]), false)).2, 0);
}

#[test]
fn type_reports_each_name() {
    let c = ctx(false);
    let r = handle_type_stub(&c, &s(&["-a", "echo", "myfn", "ll", "zz"]));
    assert_eq!(
        r.stdout,
        "echo is a shell builtin\nmyfn is a function\nll is aliased to `ls -l'\nbash: type: zz: not found\n"
    );
    assert_eq!(r.exit_code, 1);
    let none = BuiltinDispatchContext { aliases: None, ..ctx(false) };
    assert_eq!(done(dispatch_builtin(&none, "type", &s(&["ll"]), false)).0, "bash: type: ll: not found\n");
}

#[test]
fn source_requires_a_filename() {
    let r = handle_source_stub(&[]);
    assert_eq!(r.stderr, "bash: source: filename argument required\n");
    assert_eq!(r.exit_code, 1);
    assert_eq!(done(dispatch_builtin(&ctx(false), ".", &s(&["f"]), false)).2, 0);
}
