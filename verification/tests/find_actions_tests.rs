use just_bash::builtin_dispatch::ExecResult;
use just_bash::find_actions::{record_delete, record_exec, ActionOutcome};
use just_bash::find_actions::{
    delete_order, exec_command_lines, expression_get_exec, expression_has_action,
    expression_has_delete, Expression,
};

fn s(v: &[&str]) -> Vec<String> {
    v.iter().map(|x| x.to_string()).collect()
}

#[test]
fn actions_are_found_through_operators() {
    let e = Expression::And(Box::new(Expression::Test), Box::new(Expression::Not(Box::new(Expression::Delete))));
    assert!(expression_has_action(&e));
    assert!(expression_has_delete(&e));
    let t = Expression::Or(Box::new(Expression::Test), Box::new(Expression::Test));
    assert!(!expression_has_action(&t));
    assert!(!expression_has_delete(&t));
    let p = Expression::Printf { format: "%p".to_string() };
    assert!(expression_has_action(&p));
    assert!(!expression_has_delete(&Expression::Print0));
}

#[test]
fn first_exec_wins() {
    let e = Expression::Or(
        Box::new(Expression::Test),
        Box::new(Expression::And(
            Box::new(Expression::Exec { command: s(&["echo", "{}"]), batch: false }),
            Box::new(Expression::Exec { command: s(&["rm", "{}"]), batch: true }),
        )),
    );
    assert_eq!(expression_get_exec(&e), Some((s(&["echo", "{}"]), false)));
    assert_eq!(expression_get_exec(&Expression::Print), None);
}

#[test]
fn delete_order_longest_first_stable() {
    let got = delete_order(&s(&["a", "a/bb", "a/b", "c/dd", "é"]));
    assert_eq!(got, s(&["a/bb", "c/dd", "a/b", "é", "a"]));
    assert!(delete_order(&[]).is_empty());
}

#[test]
fn exec_lines_per_file_and_batched() {
    let parts = s(&["echo", "{}", "x"]);
    let matched = s(&["/a", "/b"]);
    assert_eq!(
        exec_command_lines(&parts, false, &matched),
        s(&["\"echo\" \"/a\" \"x\"", "\"echo\" \"/b\" \"x\""])
    );
    assert_eq!(exec_command_lines(&parts, true, &matched), s(&["\"echo\" \"/a\" \"/b\" \"x\""]));
    assert_eq!(exec_command_lines(&parts, true, &[]), s(&["\"echo\" \"x\""]));
    assert!(exec_command_lines(&parts, false, &[]).is_empty());
}

#[test]
fn recording_action_outcomes() {
    let mut o = ActionOutcome { output: String::new(), stderr: String::new(), exit_code: 0 };
    record_delete(&mut o, "a", Ok(()));
    assert_eq!((o.stderr.as_str(), o.exit_code), ("", 0));
    record_delete(&mut o, "b", Err("busy".to_string()));
    assert_eq!((o.stderr.as_str(), o.exit_code), ("find: cannot delete 'b': busy\n", 1));
    record_exec(&mut o, &ExecResult::new("out\n".to_string(), "err\n".to_string(), 0));
    assert_eq!(o.exit_code, 1);
    record_exec(&mut o, &ExecResult::new(String::new(), String::new(), 3));
    assert_eq!((o.output.as_str(), o.exit_code), ("out\n", 3));
    assert!(o.stderr.ends_with("err\n"));
}
