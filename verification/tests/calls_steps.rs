use runfile_executor::calls::{
	argv_outcome, dep_result_failure_detail, extract_argv, intersect_when, resolve_target_call_argv, TargetCallStep,
	WhenCondition,
};
use runfile_executor::control::ExecuteError;
use runfile_executor::prompt::{flag_answer, flag_prompt_text, value_answer, value_prompt_text};
use runfile_executor::steps::{compose_step_guard, count_leaves, leaf_partition, step_explicit_when, CommandStep, ForSource};
use runfile_executor::{RunArgs, RunContext, SubstitutionError};
use std::collections::HashMap;

fn call(template: &str) -> TargetCallStep {
	TargetCallStep { target: "build".to_string(), args_template: template.to_string(), optional: false }
}

fn sh(s: &str) -> CommandStep {
	CommandStep::Shell(s.to_string())
}

#[test]
fn argv_splits_words_and_quotes() {
	let r = argv_outcome(&call("{{ ARGS.x }}"), Ok("  --mode 'fast build' x  ".to_string())).unwrap();
	assert_eq!(r, vec!["--mode".to_string(), "fast build".to_string(), "x".to_string()]);
}

#[test]
fn argv_blank_gives_no_arguments() {
	let r = argv_outcome(&call("{{ ARGS.x }}"), Ok("   ".to_string())).unwrap();
	assert!(r.is_empty());
}

#[test]
fn argv_unbalanced_quote_is_dependency_failure() {
	let e = argv_outcome(&call("'oops"), Ok("'oops".to_string())).unwrap_err();
	match e {
		ExecuteError::DependencyFailed(t, m) => {
			assert_eq!(t, "build");
			assert_eq!(m, "could not tokenize args template `'oops` (unbalanced quotes?)");
		}
		other => panic!("unexpected {other:?}"),
	}
}

#[test]
fn argv_substitution_error_passes_through() {
	let e = argv_outcome(&call("{{ ARGS.x }}"), Err(SubstitutionError::MissingArg("x".to_string()))).unwrap_err();
	assert!(matches!(e, ExecuteError::Substitution(SubstitutionError::MissingArg(ref k)) if k == "x"));
}

#[test]
fn resolve_argv_substitutes_then_splits() {
	let args = RunArgs::parse(&["--name=a b".to_string()]);
	let r = resolve_target_call_argv(&call("--who '{{ ARGS.name }}'"), &args, &HashMap::new()).unwrap();
	assert_eq!(r, vec!["--who".to_string(), "a b".to_string()]);
	let empty = resolve_target_call_argv(&call(""), &args, &HashMap::new()).unwrap();
	assert!(empty.is_empty());
}

#[test]
fn extract_argv_drops_untokenizable() {
	assert_eq!(extract_argv("a \"b c\""), vec!["a".to_string(), "b c".to_string()]);
	assert!(extract_argv("\"open").is_empty());
	assert!(extract_argv("  ").is_empty());
}

#[test]
fn when_guards_intersect() {
	assert_eq!(intersect_when(WhenCondition::Always, WhenCondition::Failure), Some(WhenCondition::Failure));
	assert_eq!(intersect_when(WhenCondition::Success, WhenCondition::Always), Some(WhenCondition::Success));
	assert_eq!(intersect_when(WhenCondition::Failure, WhenCondition::Failure), Some(WhenCondition::Failure));
	assert_eq!(intersect_when(WhenCondition::Success, WhenCondition::Failure), None);
	assert_eq!(intersect_when(WhenCondition::Failure, WhenCondition::Success), None);
}

#[test]
fn dependency_detail_phrases() {
	assert_eq!(dep_result_failure_detail(0, Some(3)), None);
	assert_eq!(dep_result_failure_detail(2, Some(0)).as_deref(), Some("2 command(s) failed"));
	assert_eq!(dep_result_failure_detail(1, Some(-7)).as_deref(), Some("exit code -7"));
	assert_eq!(dep_result_failure_detail(1, None).as_deref(), Some("terminated by signal"));
}

#[test]
fn prompts_render_default_and_required() {
	assert_eq!(
		value_prompt_text("name", Some("bob")),
		"\x1b[1m\x1b[36m[runfile]\x1b[0m enter \x1b[1mname \x1b[2m[bob]\x1b[0m: "
	);
	assert_eq!(
		value_prompt_text("name", Some("")),
		"\x1b[1m\x1b[36m[runfile]\x1b[0m enter \x1b[1mname \x1b[2m[empty]\x1b[0m: "
	);
	assert_eq!(
		value_prompt_text("name", None),
		"\x1b[1m\x1b[36m[runfile]\x1b[0m enter \x1b[1mname \x1b[2m(required)\x1b[0m: "
	);
	assert_eq!(flag_prompt_text("force"), "\x1b[1m\x1b[36m[runfile]\x1b[0m pass \x1b[1mforce\x1b[0m? \x1b[2m(y/N)\x1b[0m: ");
}

#[test]
fn prompt_answers_are_read() {
	assert_eq!(value_answer("hello\r\n").as_deref(), Some("hello"));
	assert_eq!(value_answer("  x \n").as_deref(), Some("  x "));
	assert_eq!(value_answer("\n"), None);
	assert!(flag_answer(" YES \n"));
	assert!(flag_answer("1"));
	assert!(flag_answer("True"));
	assert!(!flag_answer("no"));
	assert!(!flag_answer(""));
}

#[test]
fn run_context_for_target_normalises() {
	let c = RunContext::for_target("macos", "aarch64", "zsh".to_string());
	assert_eq!(c.os, "mac");
	assert_eq!(c.arch, "arm64");
	assert_eq!(c.shell, "zsh");
	let w = RunContext::for_target("windows", "x86_64", "pwsh".to_string());
	assert_eq!((w.os.as_str(), w.arch.as_str()), ("windows", "x86-64"));
	let l = RunContext::for_target("freebsd", "mips", "sh".to_string());
	assert_eq!((l.os.as_str(), l.arch.as_str()), ("linux", "unknown"));
	let r = RunContext::for_target("linux", "riscv64", "sh".to_string());
	assert_eq!(r.arch, "riscv64");
}

#[test]
fn leaves_count_every_branch() {
	let steps = vec![
		sh("a"),
		CommandStep::TargetCall(call("")),
		CommandStep::If { condition: "{{ x }}".to_string(), then: vec![sh("b"), sh("c")], otherwise: Some(vec![sh("d")]), when: None, ignore_errors: false },
		CommandStep::For {
			var: "i".to_string(),
			source: Some(ForSource::Literal(vec!["1".to_string(), "2".to_string(), "3".to_string()])),
			glob: None,
			shell: None,
			body: vec![sh("e"), sh("f")],
			when: None,
			parallel: false,
			ignore_errors: false,
		},
		CommandStep::For {
			var: "f".to_string(),
			source: None,
			glob: Some("*.rs".to_string()),
			shell: None,
			body: vec![sh("g")],
			when: None,
			parallel: false,
			ignore_errors: false,
		},
		CommandStep::Match {
			expr: "{{ ARGS.env }}".to_string(),
			cases: vec![("a".to_string(), vec![sh("h")]), ("b".to_string(), vec![sh("i"), sh("j")])],
			default: Some(vec![sh("k")]),
			when: Some(WhenCondition::Always),
			ignore_errors: false,
		},
		CommandStep::When { when: WhenCondition::Failure, commands: vec![sh("l")], ignore_errors: false },
	];
	// 1 + 1 + 3 + 6 + 1 + 4 + 1
	assert_eq!(count_leaves(&steps), 17);
	assert_eq!(count_leaves(&vec![]), 0);
}

#[test]
fn step_guards_compose() {
	let w = CommandStep::When { when: WhenCondition::Success, commands: vec![], ignore_errors: false };
	assert_eq!(step_explicit_when(&w), Some(WhenCondition::Success));
	assert_eq!(step_explicit_when(&sh("x")), None);
	assert_eq!(compose_step_guard(Some(WhenCondition::Failure), &sh("x")), Some(Some(WhenCondition::Failure)));
	assert_eq!(compose_step_guard(None, &w), Some(Some(WhenCondition::Success)));
	assert_eq!(compose_step_guard(Some(WhenCondition::Failure), &w), None);
	assert_eq!(compose_step_guard(Some(WhenCondition::Always), &w), Some(Some(WhenCondition::Success)));
	assert_eq!(leaf_partition(None), WhenCondition::Success);
	assert_eq!(leaf_partition(Some(WhenCondition::Always)), WhenCondition::Always);
}
