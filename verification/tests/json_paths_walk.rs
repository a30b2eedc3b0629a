use runfile_executor::calls::WhenCondition;
use runfile_executor::control::ExecuteError;
use runfile_executor::json::{json_get, json_set};
use runfile_executor::logging::StepCounter;
use runfile_executor::paths::{join_path, path_part};
use runfile_executor::steps::CommandStep;
use runfile_executor::walk::{
	block_start_state, end_iteration, finish_block, for_extra_total, shell_iteration_lines,
	batch_failed, partition_whens, plan_shell_step, step_applies, when_matches, CommandStatus, ShellPlan, WalkState,
};
use runfile_executor::{RunArgs, SubstitutionError};
use std::collections::HashMap;

#[test]
fn json_get_reads_paths() {
	let doc = r#"{"users":[{"name":"ann","age":31}],"ok":true,"none":null,"cfg":{"b":2,"a":1}}"#;
	assert_eq!(json_get(doc, "users.0.name").unwrap(), "ann");
	assert_eq!(json_get(doc, "users.0.age").unwrap(), "31");
	assert_eq!(json_get(doc, "ok").unwrap(), "true");
	assert_eq!(json_get(doc, "none").unwrap(), "null");
	assert_eq!(json_get(doc, "cfg").unwrap(), r#"{"a":1,"b":2}"#);
	assert_eq!(json_get(doc, "users.5.name").unwrap(), "");
	assert_eq!(json_get(doc, "missing").unwrap(), "");
	assert_eq!(json_get(r#"{"0":"zero"}"#, "0").unwrap(), "zero");
	assert_eq!(json_get("[1,2]", "").unwrap(), "[1,2]");
}

#[test]
fn json_get_errors() {
	match json_get("{not json", "a") {
		Err(SubstitutionError::InvalidJson(f, _)) => assert_eq!(f, "json_get"),
		other => panic!("unexpected {other:?}"),
	}
	assert!(matches!(json_get("{}", "a..b"), Err(SubstitutionError::InvalidJsonPath(_, _))));
}

#[test]
fn json_set_builds_containers() {
	assert_eq!(json_set("{}", "a.b", "1").unwrap(), r#"{"a":{"b":1}}"#);
	assert_eq!(json_set("[]", "2", "x").unwrap(), r#"[null,null,"x"]"#);
	assert_eq!(json_set(r#"{"b":1}"#, "a", "[true]").unwrap(), r#"{"a":[true],"b":1}"#);
	assert_eq!(json_set(r#"{"a":5}"#, "a", "6").unwrap(), r#"{"a":6}"#);
	assert_eq!(json_set(r#"{"a":"s"}"#, "a.x", "\"true\"").unwrap(), r#"{"a":{"x":"true"}}"#);
	assert_eq!(json_set("{}", "", "7").unwrap(), "7");
}

#[test]
fn json_set_limits_indexes() {
	match json_set("[]", "1000001", "x") {
		Err(SubstitutionError::InvalidJsonPath(i, m)) => {
			assert_eq!(i, "1000001");
			assert_eq!(m, "array index 1000001 exceeds the maximum of 1000000");
		}
		other => panic!("unexpected {other:?}"),
	}
	assert!(matches!(json_set("nope", "a", "1"), Err(SubstitutionError::InvalidJson(ref f, _)) if f == "json_set"));
}

#[test]
fn json_functions_in_templates() {
	let args = RunArgs::parse(&[r#"--doc={"a":{"b":[10,20]}}"#.to_string()]);
	let env = HashMap::new();
	assert_eq!(args.substitute("v={{ json_get(ARGS.doc, 'a.b.1') }}", &env).unwrap(), "v=20");
	assert_eq!(args.substitute("{{ json_set(ARGS.doc, 'a.c', 'hi') }}", &env).unwrap(), r#"{"a":{"b":[10,20],"c":"hi"}}"#);
	match args.substitute("{{ json_get(ARGS.doc) }}", &env) {
		Err(SubstitutionError::FunctionArity { name, expected, got }) => {
			assert_eq!((name.as_str(), expected.as_str(), got), ("json_get", "2", 1));
		}
		other => panic!("unexpected {other:?}"),
	}
}

#[test]
fn path_functions_without_host() {
	assert_eq!(path_part("basename", "/a/b/c.txt"), "c.txt");
	assert_eq!(path_part("dirname", "/a/b/c.txt"), "/a/b");
	assert_eq!(path_part("extname", "/a/b/c.txt"), "txt");
	assert_eq!(path_part("stem", "/a/b/c.txt"), "c");
	assert_eq!(path_part("extname", "/a/b/c"), "");
	assert_eq!(join_path(&vec!["a".to_string(), "b".to_string(), "c.txt".to_string()]), "a/b/c.txt");
	let args = RunArgs::parse(&[]);
	let env = HashMap::new();
	assert_eq!(args.substitute("{{ basename('/x/y.tar.gz') }}", &env).unwrap(), "y.tar.gz");
	assert_eq!(args.substitute("{{ join_path('/x', 'y') }}", &env).unwrap(), "/x/y");
	assert!(matches!(
		args.substitute("{{ stem('a', 'b') }}", &env),
		Err(SubstitutionError::FunctionArity { ref name, got: 2, .. }) if name == "stem"
	));
}

#[test]
fn step_total_saturates() {
	let c = StepCounter::new(usize::MAX - 1);
	c.add_to_total(5);
	assert_eq!(c.total(), usize::MAX);
	let d = StepCounter::new(3);
	d.subtract_from_total(5);
	assert_eq!(d.total(), 0);
	d.add_to_total(2);
	assert_eq!(d.next_step(), (1, 2));
}

#[test]
fn walk_guards_and_failure() {
	assert!(when_matches(WhenCondition::Success, false));
	assert!(!when_matches(WhenCondition::Success, true));
	assert!(when_matches(WhenCondition::Failure, true));
	assert!(!when_matches(WhenCondition::Failure, false));
	assert!(when_matches(WhenCondition::Always, true));
	assert!(!step_applies(&CommandStep::Shell("x".to_string()), true));
	let w = CommandStep::When { when: WhenCondition::Failure, commands: vec![], ignore_errors: false };
	assert!(step_applies(&w, true));

	let mut s = WalkState::new();
	let pre = s.failures;
	s.record_status(CommandStatus { code: Some(0) });
	s.settle_step(pre, false);
	assert_eq!((s.commands_run, s.failures, s.failed), (1, 0, false));
	let pre = s.failures;
	s.record_status(CommandStatus { code: Some(2) });
	s.settle_step(pre, false);
	assert_eq!((s.commands_run, s.failures, s.failed), (2, 1, true));
	assert_eq!(s.last_status, Some(CommandStatus { code: Some(2) }));

	let mut t = WalkState::new();
	let pre = t.failures;
	t.record_user_error();
	t.settle_step(pre, true);
	assert_eq!((t.failures, t.failed), (1, false));
	assert_eq!(t.last_status, Some(CommandStatus { code: Some(1) }));
	t.record_dependency(3, 2, CommandStatus { code: None });
	assert_eq!((t.commands_run, t.failures), (4, 3));
}

#[test]
fn walk_when_blocks() {
	let mut s = WalkState::new();
	s.record_status(CommandStatus { code: Some(1) });
	s.settle_step(0, false);
	assert!(s.failed);
	let frame = s.enter_when_block(WhenCondition::Always);
	assert!(!s.failed);
	s.record_status(CommandStatus { code: Some(1) });
	s.settle_step(frame.pre_failures, false);
	s.leave_when_block(frame, true);
	assert_eq!((s.failed, s.failures), (true, 1));

	let mut u = WalkState::new();
	let frame = u.enter_when_block(WhenCondition::Success);
	u.record_status(CommandStatus { code: Some(1) });
	u.settle_step(frame.pre_failures, false);
	u.leave_when_block(frame, false);
	assert!(u.failed);
}

#[test]
fn walk_shell_plans() {
	assert!(matches!(plan_shell_step(Err(SubstitutionError::UserError("x".to_string()))), ShellPlan::UserError));
	assert!(matches!(
		plan_shell_step(Err(SubstitutionError::MissingArg("k".to_string()))),
		ShellPlan::Abort(ExecuteError::Substitution(SubstitutionError::MissingArg(_)))
	));
	assert!(matches!(plan_shell_step(Ok("  \t".to_string())), ShellPlan::Skip));
	assert!(matches!(plan_shell_step(Ok(" echo hi".to_string())), ShellPlan::Run(ref c) if c == " echo hi"));
}

#[test]
fn walk_parallel_partitions() {
	let ws = vec![WhenCondition::Success, WhenCondition::Always, WhenCondition::Failure, WhenCondition::Success];
	let (s, f, a) = partition_whens(&ws);
	assert_eq!((s, f, a), (vec![0, 3], vec![2], vec![1]));
	assert!(batch_failed(0, 1, false, false));
	assert!(!batch_failed(0, 1, true, false));
	assert!(!batch_failed(0, 1, false, true));
	assert!(!batch_failed(1, 1, false, false));
}

#[test]
fn walk_blocks_and_loops() {
	let mut s = WalkState::new();
	s.record_status(CommandStatus { code: Some(3) });
	s.settle_step(0, false);
	let l = block_start_state(&s, Some(WhenCondition::Always));
	assert_eq!((l.commands_run, l.failures, l.failed), (0, 0, false));
	let l2 = block_start_state(&s, None);
	assert!(l2.failed);

	let mut it = WalkState::new();
	it.record_status(CommandStatus { code: Some(1) });
	it.settle_step(0, false);
	assert!(!end_iteration(&mut it, true, true));
	assert!(!it.failed);
	let mut it2 = WalkState::new();
	assert!(end_iteration(&mut it2, true, false));
	let mut it3 = WalkState::new();
	assert!(!end_iteration(&mut it3, true, true));
	assert_eq!(it3.failures, 1);

	let mut t = WalkState::new();
	finish_block(&mut t, &it, true);
	assert_eq!((t.commands_run, t.failures, t.failed), (1, 0, false));
	assert_eq!(t.last_status, Some(CommandStatus { code: Some(1) }));
	let mut u = WalkState::new();
	let mut inner = WalkState::new();
	inner.record_status(CommandStatus { code: Some(1) });
	inner.settle_step(0, false);
	finish_block(&mut u, &inner, false);
	assert_eq!((u.commands_run, u.failures, u.failed), (1, 1, true));

	assert_eq!(for_extra_total(5, 1, 3), 12);
	assert_eq!(for_extra_total(1, 3, 3), 0);
	assert_eq!(for_extra_total(usize::MAX, 0, 2), usize::MAX);
	assert_eq!(shell_iteration_lines(" a \r\n\n b\n  \nc"), vec!["a".to_string(), "b".to_string(), "c".to_string()]);
	assert!(shell_iteration_lines("").is_empty());
}

#[test]
fn shell_iterator_preview_value() {
	assert_eq!(runfile_executor::extract::shell_iterator_placeholder("file"), "<file>");
}
