use runfile_executor::calls::{TargetCallStep, WhenCondition};
use runfile_executor::control::{ExecuteError, ExtractError, ShellLeafContext, ShellLeafFlattenError};
use runfile_executor::extract::ShellKind;
use runfile_executor::extract_steps::{extract_steps, ExtractItem, ExtractStop};
use runfile_executor::flatten::{collect_shell_only_leaves, same_shell_script, FlattenStop};
use runfile_executor::parallel::{collect_parallel_leaves, ParallelLeaf, ParallelStop};
use runfile_executor::paths::{join_path, path_part};
use runfile_executor::steps::{CommandStep, ForSource};
use runfile_executor::RunArgs;
use std::collections::HashMap;

fn sh(s: &str) -> CommandStep {
	CommandStep::Shell(s.to_string())
}

fn strings(v: &[&str]) -> Vec<String> {
	v.iter().map(|s| s.to_string()).collect()
}

fn for_step(var: &str, source: Option<ForSource>, glob: Option<&str>, shell: Option<&str>, body: Vec<CommandStep>) -> CommandStep {
	CommandStep::For {
		var: var.to_string(),
		source,
		glob: glob.map(|g| g.to_string()),
		shell: shell.map(|s| s.to_string()),
		body,
		when: None,
		parallel: false,
		ignore_errors: false,
	}
}

fn when(w: WhenCondition, commands: Vec<CommandStep>) -> CommandStep {
	CommandStep::When { when: w, commands, ignore_errors: false }
}

#[test]
fn extract_steps_walks_in_order() {
	let args = RunArgs::parse(&["--name=z".to_string()]);
	let env = HashMap::new();
	let steps = vec![
		sh("echo {{ ARGS.name }}"),
		sh("   "),
		CommandStep::TargetCall(TargetCallStep {
			target: "build".to_string(),
			args_template: "--x '{{ ARGS.name }}'".to_string(),
			optional: true,
		}),
		CommandStep::If {
			condition: "true".to_string(),
			then: vec![sh("t")],
			otherwise: Some(vec![sh("f")]),
			when: None,
			ignore_errors: false,
		},
		for_step("v", Some(ForSource::Literal(strings(&["a", "b"]))), None, None, vec![sh("go {{ VARS.v }}")]),
	];
	let extra = vec![("K".to_string(), "V".to_string())];
	let mut out = Vec::new();
	assert!(extract_steps(&steps, &args, &env, &extra, &vec![], &mut out).is_ok());
	let mut seen = Vec::new();
	for item in &out {
		match item {
			ExtractItem::Command(c) => {
				assert_eq!(c.env_vars, extra);
				seen.push(c.command.clone());
			}
			ExtractItem::Call { target, argv, optional } => {
				assert_eq!(target, "build");
				assert_eq!(argv, &strings(&["--x", "z"]));
				assert!(*optional);
				seen.push("@build".to_string());
			}
		}
	}
	assert_eq!(seen, strings(&["echo z", "@build", "t", "go a", "go b"]));
	assert!(args.vars.lock().unwrap().get("v").is_none());
}

#[test]
fn extract_steps_asks_for_glob_values() {
	let args = RunArgs::parse(&[]);
	let env = HashMap::new();
	let steps = vec![sh("first"), for_step("f", None, Some("*.rs"), None, vec![sh("cat {{ VARS.f }}")])];
	let mut out = Vec::new();
	match extract_steps(&steps, &args, &env, &vec![], &vec![], &mut out) {
		Err(ExtractStop::NeedGlob(p)) => assert_eq!(p, "*.rs"),
		other => panic!("unexpected {:?}", other),
	}
	assert_eq!(out.len(), 1);
	let mut out = Vec::new();
	assert!(extract_steps(&steps, &args, &env, &vec![], &vec![strings(&["a.rs", "b.rs"])], &mut out).is_ok());
	let cmds: Vec<String> = out
		.iter()
		.map(|i| match i {
			ExtractItem::Command(c) => c.command.clone(),
			ExtractItem::Call { .. } => panic!("no call expected"),
		})
		.collect();
	assert_eq!(cmds, strings(&["first", "cat a.rs", "cat b.rs"]));
}

#[test]
fn extract_steps_shell_placeholder_and_errors() {
	let args = RunArgs::parse(&[]);
	let env = HashMap::new();
	let steps = vec![for_step("x", None, None, Some("ls"), vec![sh("use {{ VARS.x }}")])];
	let mut out = Vec::new();
	assert!(extract_steps(&steps, &args, &env, &vec![], &vec![], &mut out).is_ok());
	match &out[0] {
		ExtractItem::Command(c) => assert_eq!(c.command, "use <x>"),
		ExtractItem::Call { .. } => panic!("no call expected"),
	}
	let bad = vec![sh("a"), sh("{{ ARGS.missing }}"), sh("b")];
	let mut out = Vec::new();
	assert!(matches!(
		extract_steps(&bad, &args, &env, &vec![], &vec![], &mut out),
		Err(ExtractStop::Failed(ExtractError::Substitution(_)))
	));
	assert_eq!(out.len(), 1);
}

#[test]
fn parallel_leaves_compose_guards() {
	let args = RunArgs::parse(&[]);
	let env = HashMap::new();
	let steps = vec![
		sh("a"),
		sh("  "),
		when(WhenCondition::Failure, vec![sh("f")]),
		when(WhenCondition::Always, vec![when(WhenCondition::Success, vec![sh("s")])]),
		CommandStep::TargetCall(TargetCallStep { target: "dep".to_string(), args_template: String::new(), optional: false }),
	];
	let mut out = Vec::new();
	assert_eq!(collect_parallel_leaves(&steps, None, &args, &env, &vec![], &mut out).unwrap(), 1);
	let seen: Vec<(String, WhenCondition)> = out
		.iter()
		.map(|l| match l {
			ParallelLeaf::Shell { command, when } => (command.clone(), *when),
			ParallelLeaf::TargetCall { target, argv, optional, when } => {
				assert!(argv.is_empty());
				assert!(!*optional);
				(format!("@{target}"), *when)
			}
		})
		.collect();
	assert_eq!(
		seen,
		vec![
			("a".to_string(), WhenCondition::Success),
			("f".to_string(), WhenCondition::Failure),
			("s".to_string(), WhenCondition::Success),
			("@dep".to_string(), WhenCondition::Success),
		]
	);
	let mut out = Vec::new();
	assert_eq!(collect_parallel_leaves(&steps, Some(WhenCondition::Success), &args, &env, &vec![], &mut out).unwrap(), 1);
	assert_eq!(out.len(), 3);
}

#[test]
fn parallel_leaves_loops_and_stops() {
	let args = RunArgs::parse(&[]);
	let env = HashMap::new();
	let steps = vec![for_step("g", None, Some("*.x"), None, vec![sh("t {{ VARS.g }}")])];
	let mut out = Vec::new();
	match collect_parallel_leaves(&steps, None, &args, &env, &vec![], &mut out) {
		Err(ParallelStop::NeedIterations(Some(g), None)) => assert_eq!(g, "*.x"),
		other => panic!("unexpected {:?}", other),
	}
	let mut out = Vec::new();
	assert_eq!(collect_parallel_leaves(&steps, None, &args, &env, &vec![strings(&["1", "2"])], &mut out).unwrap(), 0);
	assert_eq!(out.len(), 2);
	let bad = vec![sh("{{ ARGS.nope }}")];
	let mut out = Vec::new();
	assert!(matches!(
		collect_parallel_leaves(&bad, None, &args, &env, &vec![], &mut out),
		Err(ParallelStop::Failed(ExecuteError::Substitution(_)))
	));
	let nested = vec![for_step(
		"dir",
		Some(ForSource::Literal(strings(&["a", "b"]))),
		None,
		None,
		vec![for_step("f", None, Some("{{ VARS.dir }}/*.rs"), None, vec![sh("x {{ VARS.f }}")])],
	)];
	let mut out = Vec::new();
	match collect_parallel_leaves(&nested, None, &args, &env, &vec![], &mut out) {
		Err(ParallelStop::NeedIterations(Some(g), None)) => assert_eq!(g, "a/*.rs"),
		other => panic!("unexpected {:?}", other),
	}
	let mut out = Vec::new();
	let given = vec![strings(&["a/1.rs"]), strings(&["b/2.rs", "b/3.rs"])];
	assert_eq!(collect_parallel_leaves(&nested, None, &args, &env, &given, &mut out).unwrap(), 0);
	assert_eq!(out.len(), 3);
	let bad_item = vec![for_step("v", Some(ForSource::Literal(strings(&["{{ ARGS.nope }}"]))), None, None, vec![sh("y")])];
	let mut out = Vec::new();
	assert!(matches!(
		collect_parallel_leaves(&bad_item, None, &args, &env, &vec![], &mut out),
		Err(ParallelStop::Failed(ExecuteError::ControlFlow(_)))
	));
}

#[test]
fn same_shell_script_joins_commands() {
	let args = RunArgs::parse(&[]);
	let env = HashMap::new();
	let steps = vec![sh("a"), sh(" "), when(WhenCondition::Failure, vec![sh("never")]), sh("b")];
	let plan = same_shell_script(&steps, &args, &env, &vec![], &ShellKind::Bash, false).unwrap();
	assert_eq!(plan.script, Some("a && b".to_string()));
	assert_eq!(plan.commands, strings(&["a", "b"]));
	assert_eq!(plan.dropped, 1);
	let plan = same_shell_script(&steps, &args, &env, &vec![], &ShellKind::Cmd, true).unwrap();
	assert_eq!(plan.script, Some("a & b".to_string()));
	let call = vec![CommandStep::TargetCall(TargetCallStep { target: "x".to_string(), args_template: String::new(), optional: false })];
	assert!(matches!(
		collect_shell_only_leaves(&call, &args, &env, ShellLeafContext::Detach, &vec![]),
		Err(FlattenStop::Failed(ShellLeafFlattenError::TargetCallNotAllowed(_)))
	));
}

#[test]
fn path_parts_of_portable_paths() {
	assert_eq!(path_part("extname", "a/b.tar.gz"), "gz");
	assert_eq!(path_part("stem", "a/b.tar.gz"), "b.tar");
	assert_eq!(path_part("basename", "a/b.tar.gz"), "b.tar.gz");
	assert_eq!(path_part("dirname", "a/b.tar.gz"), "a");
	assert_eq!(path_part("dirname", "file"), "");
	assert_eq!(path_part("extname", ".bashrc"), "");
	assert_eq!(join_path(&strings(&["only/one"])), "only/one");
}

#[test]
fn split_functions_read_one_split() {
	let args = RunArgs::parse(&[]);
	let env = HashMap::new();
	let sub = |t: &str| args.substitute(t, &env).unwrap();
	assert_eq!(sub("{{ count_parts('', ',') }}"), "1");
	assert_eq!(sub("{{ count_parts('a,b,', ',') }}"), "3");
	assert_eq!(sub("{{ nth('a,,c', ',', '1') }}"), "");
	assert_eq!(sub("{{ nth('a,b', ',', '5') }}"), "");
	assert_eq!(sub("{{ first('a,b', ',') }}"), "a");
	assert_eq!(sub("{{ last('a,b', ',') }}"), "b");
	assert_eq!(sub("{{ last('aaa', 'aa') }}"), "");
}
