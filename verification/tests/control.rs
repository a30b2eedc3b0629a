use runfile_executor::control::{
	evaluate_if_condition, execute_error_failure_detail, format_match_cases, format_target_call_label, if_outcome,
	is_truthy, match_outcome, resolve_match_branch, strip_regex_delimiters, ControlFlowError, ExecuteError,
	ExtractError, MatchBranch, MatchCases, NoOpDependencyResolver, ShellLeafContext, ShellLeafFlattenError,
};
use runfile_executor::extract::{
	format_bash_env_assignment, join_shell_commands, shell_quote_fish, shell_quote_powershell, value_needs_quoting,
	ShellKind,
};
use runfile_executor::{RunArgs, SubstitutionError};
use std::collections::HashMap;

fn cases(keys: &[&str], has_default: bool) -> MatchCases {
	MatchCases {
		expr: "{{ ARGS.env }}".to_string(),
		keys: keys.iter().map(|k| k.to_string()).collect(),
		has_default,
	}
}

#[test]
fn truthiness_is_non_emptiness() {
	assert!(!is_truthy(""));
	assert!(is_truthy("false"));
	assert!(is_truthy(" "));
}

#[test]
fn regex_delimiters() {
	assert_eq!(strip_regex_delimiters("/^v[0-9]+$/"), Some("^v[0-9]+$".to_string()));
	assert_eq!(strip_regex_delimiters("//"), Some(String::new()));
	assert_eq!(strip_regex_delimiters("/"), None);
	assert_eq!(strip_regex_delimiters("abc"), None);
	assert_eq!(strip_regex_delimiters("/abc"), None);
	assert_eq!(strip_regex_delimiters("é/"), None);
}

#[test]
fn target_call_labels() {
	assert_eq!(format_target_call_label("build", &[], false), "@build");
	assert_eq!(
		format_target_call_label("deploy", &["--env".to_string(), "prod".to_string()], true),
		"@?deploy --env prod"
	);
}

#[test]
fn if_outcome_accepts_only_three_values() {
	assert!(matches!(if_outcome("c", Ok("true".to_string())), Ok(true)));
	assert!(matches!(if_outcome("c", Ok("false".to_string())), Ok(false)));
	assert!(matches!(if_outcome("c", Ok(String::new())), Ok(false)));
	match if_outcome("{{ x }}", Ok("yes".to_string())) {
		Err(e @ ControlFlowError::IfConditionNotBoolean { .. }) => {
			let m = e.message();
			assert!(m.starts_with("`if` condition `{{ x }}` resolved to \"yes\", which is not a boolean."), "{m}");
			assert!(m.contains("e.g. `{{ {{ x }} == 'value' }}`"), "{m}");
		}
		other => panic!("unexpected {other:?}"),
	}
	assert!(matches!(
		if_outcome("c", Err(SubstitutionError::DivideByZero)),
		Err(ControlFlowError::Substitution(SubstitutionError::DivideByZero))
	));
}

#[test]
fn if_condition_resolves_through_substitution() {
	let args = RunArgs::parse(&["--env=prod".to_string()]);
	let env = HashMap::new();
	assert!(matches!(evaluate_if_condition("{{ ARGS.env == 'prod' }}", &args, &env), Ok(true)));
	assert!(matches!(evaluate_if_condition("{{ ARGS.env == 'dev' }}", &args, &env), Ok(false)));
	assert!(matches!(
		evaluate_if_condition("{{ ARGS.env }}", &args, &env),
		Err(ControlFlowError::IfConditionNotBoolean { .. })
	));
}

#[test]
fn match_exact_then_regex_then_default() {
	let c = cases(&["dev", "prod", "/^stag/"], false);
	assert_eq!(match_outcome(&c, Ok("prod".to_string())).unwrap(), MatchBranch::Case(1));
	assert_eq!(match_outcome(&c, Ok("staging".to_string())).unwrap(), MatchBranch::Case(2));
	match match_outcome(&c, Ok("other".to_string())) {
		Err(e @ ControlFlowError::MatchNoCase { .. }) => {
			assert_eq!(
				e.message(),
				"No case matched value \"other\" for `match` \"{{ ARGS.env }}\"\n  Valid cases: \"dev\", \"prod\", \"/^stag/\""
			);
		}
		other => panic!("unexpected {other:?}"),
	}
	let d = cases(&["dev"], true);
	assert_eq!(match_outcome(&d, Ok("other".to_string())).unwrap(), MatchBranch::Default);
}

#[test]
fn match_literal_key_wins_over_regex() {
	let c = cases(&["/.*/", "x"], false);
	assert_eq!(match_outcome(&c, Ok("x".to_string())).unwrap(), MatchBranch::Case(1));
	assert_eq!(match_outcome(&c, Ok("y".to_string())).unwrap(), MatchBranch::Case(0));
}

#[test]
fn match_bad_regex_key_errors() {
	let c = cases(&["/([/"], true);
	match match_outcome(&c, Ok("x".to_string())) {
		Err(ControlFlowError::BadRegexCase { key, .. }) => assert_eq!(key, "/([/"),
		other => panic!("unexpected {other:?}"),
	}
}

#[test]
fn match_unresolved_value() {
	let c = cases(&[], false);
	match match_outcome(&c, Err(SubstitutionError::DivideByZero)) {
		Err(e @ ControlFlowError::MatchValueUnresolved { .. }) => {
			assert_eq!(
				e.message(),
				"Could not resolve value for `match` \"{{ ARGS.env }}\": Division by zero.\n  Valid cases: (none)"
			);
		}
		other => panic!("unexpected {other:?}"),
	}
	let d = cases(&["a"], true);
	assert_eq!(match_outcome(&d, Err(SubstitutionError::DivideByZero)).unwrap(), MatchBranch::Default);
}

#[test]
fn match_resolves_through_substitution() {
	let args = RunArgs::parse(&["--env".to_string(), "staging".to_string()]);
	let c = cases(&["dev", "/^stag/"], false);
	assert_eq!(resolve_match_branch(&c, &args, &HashMap::new()).unwrap(), MatchBranch::Case(1));
	let none = RunArgs::parse(&[]);
	let d = cases(&["dev"], true);
	assert_eq!(resolve_match_branch(&d, &none, &HashMap::new()).unwrap(), MatchBranch::Default);
}

#[test]
fn match_case_listing() {
	assert_eq!(format_match_cases(&vec![]), "(none)");
	assert_eq!(format_match_cases(&vec!["a".to_string(), "b".to_string()]), "\"a\", \"b\"");
}

#[test]
fn error_messages() {
	assert_eq!(
		ControlFlowError::ShellIteratorFailed("ls".into(), -1).message(),
		"`for shell` iterator failed: command \"ls\" exited with status -1"
	);
	assert_eq!(
		ControlFlowError::BadGlob("*.x".into(), "bad".into()).message(),
		"Failed to expand `for glob` pattern \"*.x\": bad"
	);
	assert_eq!(
		ExecuteError::NonZeroExit("make".into(), 2).message(),
		"Command \"make\" exited with status 2"
	);
	assert_eq!(ExecuteError::Signal("make".into()).message(), "Command \"make\" was terminated by signal");
	assert_eq!(ExtractError::UnknownTarget("x".into()).message(), "Unknown target \"x\" referenced via @target");
	assert_eq!(ExtractError::CycleDetected("a -> b -> a".into()).message(), "Dependency cycle detected: a -> b -> a");
	assert_eq!(ShellLeafFlattenError::TargetCallNotAllowed("no".into()).message(), "no");
	assert_eq!(
		ShellLeafFlattenError::ControlFlow(ControlFlowError::UnparsedCondition).message(),
		"Internal error: `if` condition was not pre-parsed (this is a bug)"
	);
}

#[test]
fn failure_details() {
	assert_eq!(execute_error_failure_detail(&ExecuteError::NonZeroExit("m".into(), 3)), "exit code 3");
	assert_eq!(execute_error_failure_detail(&ExecuteError::Signal("m".into())), "terminated by signal");
	assert_eq!(
		execute_error_failure_detail(&ExecuteError::DependencyFailed("x".into(), "y".into())),
		"error: Failed to invoke target dependency `@x`: y"
	);
}

#[test]
fn no_op_resolver_refuses() {
	match NoOpDependencyResolver.run_dependency("build") {
		Err(ExecuteError::DependencyFailed(t, m)) => {
			assert_eq!(t, "build");
			assert_eq!(m, "no dependency resolver wired (this code path is for tests / standalone use)");
		}
		other => panic!("unexpected {other:?}"),
	}
}

#[test]
fn target_call_messages() {
	let d = ShellLeafContext::Detach.target_call_message("dep");
	assert!(d.ends_with("Found `@dep` in detached target."), "{d}");
	let s = ShellLeafContext::SameShell.target_call_message("dep");
	assert!(s.ends_with("Found `@dep`."), "{s}");
	assert!(s.starts_with("`@target` invocations are not supported inside `sameShell: true` targets"));
}

#[test]
fn join_separators() {
	let one = vec!["a".to_string()];
	let two = vec!["a".to_string(), "b".to_string()];
	assert_eq!(join_shell_commands(&one, &ShellKind::Cmd, true), "a");
	assert_eq!(join_shell_commands(&two, &ShellKind::Bash, false), "a && b");
	assert_eq!(join_shell_commands(&two, &ShellKind::Bash, true), "a; b");
	assert_eq!(join_shell_commands(&two, &ShellKind::Cmd, true), "a & b");
	assert_eq!(join_shell_commands(&two, &ShellKind::Cmd, false), "a && b");
	assert_eq!(join_shell_commands(&two, &ShellKind::PowerShell, true), "a; b");
	assert_eq!(join_shell_commands(&[], &ShellKind::Bash, false), "");
}

#[test]
fn quoting_helpers() {
	assert_eq!(format_bash_env_assignment("K", "it's"), "K='it'\\''s'");
	assert_eq!(format_bash_env_assignment("K", "plain"), "K=plain");
	assert_eq!(format_bash_env_assignment("K", ""), "K=''");
	assert_eq!(shell_quote_fish("plain"), "plain");
	assert_eq!(shell_quote_fish("a b"), "'a b'");
	assert_eq!(shell_quote_powershell("a'b"), "'a''b'");
	assert!(value_needs_quoting(""));
	assert!(value_needs_quoting("a~"));
	assert!(!value_needs_quoting("a-b_c.d/e:f=g"));
}
