use runfile_executor::{check_env_case_duplicates, scan_args_usage, validate_args, RunArgs, RunContext, StdinPrompter, SubstitutionError};
use std::collections::HashMap;
use std::sync::{Arc, Mutex};

trait SubstituteNoEnv {
	fn substitute_no_env(&self, input: &str) -> Result<String, SubstitutionError>;
}

impl SubstituteNoEnv for RunArgs {
	fn substitute_no_env(&self, input: &str) -> Result<String, SubstitutionError> {
		self.substitute(input, &HashMap::new())
	}
}

fn args_with_run(shell: &str) -> RunArgs {
	RunArgs::parse(&[]).with_run_context(RunContext {
		os: "linux".to_string(),
		shell: shell.to_string(),
		..Default::default()
	})
}

fn args_with_shell(shell: &str) -> RunArgs {
	RunArgs::parse(&[]).with_run_context(RunContext {
		shell: shell.into(),
		..Default::default()
	})
}

/// Test prompter that returns scripted answers and records every prompt.
#[derive(Debug, Default)]
struct MockPrompter {
	value_answers: Mutex<HashMap<String, Option<String>>>,
	flag_answers: Mutex<HashMap<String, bool>>,
	value_calls: Mutex<Vec<(String, Option<String>)>>,
	flag_calls: Mutex<Vec<String>>,
}

impl MockPrompter {
	fn with_value(self, key: &str, answer: Option<&str>) -> Self {
		self.value_answers
			.lock()
			.unwrap()
			.insert(key.to_string(), answer.map(|s| s.to_string()));
		self
	}
	fn with_flag(self, key: &str, present: bool) -> Self {
		self.flag_answers.lock().unwrap().insert(key.to_string(), present);
		self
	}
}

impl StdinPrompter for MockPrompter {
	fn prompt_value(&self, key: &str, default: Option<&str>) -> Option<String> {
		self.value_calls
			.lock()
			.unwrap()
			.push((key.to_string(), default.map(|s| s.to_string())));
		self.value_answers.lock().unwrap().get(key).cloned().unwrap_or(None)
	}
	fn prompt_flag(&self, key: &str) -> bool {
		self.flag_calls.lock().unwrap().push(key.to_string());
		self.flag_answers.lock().unwrap().get(key).copied().unwrap_or(false)
	}
}

fn args_with(prompter: Arc<dyn StdinPrompter>) -> RunArgs {
	RunArgs::parse(&[]).with_stdin_prompter(Some(prompter))
}

#[test]
fn parse_empty_args() {
	let args = RunArgs::parse(&[]);
	assert!(args.original.is_empty());
	assert!(args.named.is_empty());
}

#[test]
fn parse_positional_args() {
	let args = RunArgs::parse(&["foo".into(), "bar".into(), "baz".into()]);
	assert_eq!(args.original, vec!["foo", "bar", "baz"]);
	assert!(args.named.is_empty());
}

#[test]
fn parse_named_args_with_equals() {
	let args = RunArgs::parse(&["--env=production".into(), "--port=3000".into()]);
	assert_eq!(args.named["env"], "production");
	assert_eq!(args.named["port"], "3000");
}

#[test]
fn parse_named_args_with_space() {
	let args = RunArgs::parse(&["--env".into(), "production".into()]);
	assert_eq!(args.named["env"], "production");
}

#[test]
fn parse_mixed_args() {
	let args = RunArgs::parse(&[
		"positional".into(),
		"--flag".into(),
		"--env=dev".into(),
		"another".into(),
	]);
	assert_eq!(args.named["env"], "dev");
	assert_eq!(args.named["flag"], "");
}

#[test]
fn parse_flag_without_value() {
	let args = RunArgs::parse(&["--verbose".into()]);
	assert_eq!(args.named["verbose"], "");
}

#[test]
fn substitute_args_placeholder() {
	let args = RunArgs::parse(&["release".into(), "fast".into()]);
	let result = args.substitute_no_env("cargo build {{ ARGS }}").unwrap();
	assert_eq!(result, "cargo build release fast");
}

#[test]
fn substitute_args_passes_dashes_through() {
	// "run build --help" → "cargo build --help"
	let args = RunArgs::parse(&["--help".into()]);
	let result = args.substitute_no_env("cargo build {{ ARGS }}").unwrap();
	assert_eq!(result, "cargo build --help");
}

#[test]
fn substitute_args_passes_everything_through() {
	// "run build 333 44 $ARGS" → "cargo build 333 44 $ARGS"
	let args = RunArgs::parse(&["333".into(), "44".into(), "$ARGS".into()]);
	let result = args.substitute_no_env("cargo build {{ ARGS }}").unwrap();
	assert_eq!(result, "cargo build 333 44 $ARGS");
}

#[test]
fn substitute_named_consumed_removed_from_args() {
	// "run build --env dev --help" with "cargo build env:{{ ARGS.env ? 'test' }} {{ ARGS }}"
	// → "cargo build env:dev --help"
	let args = RunArgs::parse(&["--env".into(), "dev".into(), "--help".into()]);
	let result = args
		.substitute_no_env("cargo build env:{{ ARGS.env ? 'test' }} {{ ARGS }}")
		.unwrap();
	assert_eq!(result, "cargo build env:dev --help");
}

#[test]
fn substitute_named_consumed_equals_form() {
	// "run build --env=dev --help" → consumed --env=dev, {{ ARGS }} = "--help"
	let args = RunArgs::parse(&["--env=dev".into(), "--help".into()]);
	let result = args
		.substitute_no_env("cargo build env:{{ ARGS.env ? 'test' }} {{ ARGS }}")
		.unwrap();
	assert_eq!(result, "cargo build env:dev --help");
}

#[test]
fn substitute_named_default_not_consumed_from_args() {
	// "run build --help" with "cargo build env:{{ ARGS.env ? 'test' }} {{ ARGS }}"
	// --env was NOT provided, so default "test" is used, and --help stays in {{ ARGS }}
	let args = RunArgs::parse(&["--help".into()]);
	let result = args
		.substitute_no_env("cargo build env:{{ ARGS.env ? 'test' }} {{ ARGS }}")
		.unwrap();
	assert_eq!(result, "cargo build env:test --help");
}

#[test]
fn substitute_named_arg() {
	let args = RunArgs::parse(&["--env=staging".into()]);
	let result = args.substitute_no_env("echo {{ ARGS.env }}").unwrap();
	assert_eq!(result, "echo staging");
}

#[test]
fn substitute_named_arg_with_default() {
	let args = RunArgs::parse(&[]);
	let result = args.substitute_no_env("echo {{ ARGS.env ? 'development' }}").unwrap();
	assert_eq!(result, "echo development");
}

#[test]
fn substitute_named_arg_overrides_default() {
	let args = RunArgs::parse(&["--env=production".into()]);
	let result = args.substitute_no_env("echo {{ ARGS.env ? 'development' }}").unwrap();
	assert_eq!(result, "echo production");
}

#[test]
fn substitute_preserves_shell_dollar_var() {
	// Bare shell variables like `$HOME` are not Runfile substitutions and
	// must pass through verbatim to the shell.
	let args = RunArgs::parse(&[]);
	let result = args.substitute_no_env("echo $HOME and {{ ARGS }}").unwrap();
	assert_eq!(result, "echo $HOME and ");
}

#[test]
fn substitute_multiple_named_consumed() {
	// Both --port and --host are consumed by {{ ARGS.key }}, so {{ ARGS }} should be empty
	let args = RunArgs::parse(&["--port=3000".into(), "--host=localhost".into()]);
	let result = args
		.substitute_no_env("server --port={{ ARGS.port ? '8080' }} --host={{ ARGS.host ? '0.0.0.0' }}")
		.unwrap();
	assert_eq!(result, "server --port=3000 --host=localhost");
}

#[test]
fn substitute_order_independent() {
	// "run build --help --env dev" → same as "--env dev --help"
	let args = RunArgs::parse(&["--help".into(), "--env".into(), "dev".into()]);
	let result = args
		.substitute_no_env("cargo build env:{{ ARGS.env ? 'test' }} {{ ARGS }}")
		.unwrap();
	assert_eq!(result, "cargo build env:dev --help");
}

#[test]
fn substitute_no_args_no_substitution() {
	// "run build" with "cargo build {{ ARGS }}" → "cargo build "
	let args = RunArgs::parse(&[]);
	let result = args.substitute_no_env("cargo build {{ ARGS }}").unwrap();
	assert_eq!(result, "cargo build ");
}

#[test]
fn substitute_redacted_hides_env_values() {
	let args = RunArgs::parse(&[]);
	let mut env = HashMap::new();
	env.insert("DB_PASSWORD".to_string(), "s3cret".to_string());
	let result = args
		.substitute_redacted("connect --password={{ ENV.DB_PASSWORD }}", &env)
		.unwrap();
	assert_eq!(result, "connect --password=***");
	assert!(!result.contains("s3cret"), "secret should be redacted");
}

#[test]
fn substitute_redacted_shows_args_values() {
	let args = RunArgs::parse(&["--env=production".into()]);
	let env = HashMap::new();
	let result = args.substitute_redacted("deploy {{ ARGS.env }}", &env).unwrap();
	assert_eq!(result, "deploy production");
}

#[test]
fn substitute_redacted_shows_positional_args() {
	let args = RunArgs::parse(&["hello".into(), "world".into()]);
	let env = HashMap::new();
	let result = args.substitute_redacted("echo {{ ARGS }}", &env).unwrap();
	assert_eq!(result, "echo hello world");
}

#[test]
fn substitute_redacted_mixed_args_and_env() {
	let args = RunArgs::parse(&["--host=example.com".into()]);
	let mut env = HashMap::new();
	env.insert("SECRET_TOKEN".to_string(), "tok_abc123".to_string());
	let result = args
		.substitute_redacted(
			"curl -H 'Authorization: {{ ENV.SECRET_TOKEN }}' https://{{ ARGS.host }}/api",
			&env,
		)
		.unwrap();
	assert_eq!(result, "curl -H 'Authorization: ***' https://example.com/api");
}

#[test]
fn substitute_redacted_env_with_default_still_redacts() {
	let args = RunArgs::parse(&[]);
	let mut env = HashMap::new();
	env.insert("TOKEN".to_string(), "actual_value".to_string());
	let result = args
		.substitute_redacted("echo {{ ENV.TOKEN ? 'fallback' }}", &env)
		.unwrap();
	assert_eq!(result, "echo ***");
}

#[test]
fn substitute_redacted_env_missing_uses_default() {
	let args = RunArgs::parse(&[]);
	let env = HashMap::new();
	let result = args
		.substitute_redacted("echo {{ ENV.MISSING ? 'fallback' }}", &env)
		.unwrap();
	assert_eq!(result, "echo fallback");
}

#[test]
fn substitute_redacted_chained_args_then_env() {
	let args = RunArgs::parse(&[]);
	let mut env = HashMap::new();
	env.insert("DB_HOST".to_string(), "db.internal".to_string());
	// ARGS.host not provided, falls through to ENV.DB_HOST → redacted
	let result = args
		.substitute_redacted("connect {{ ARGS.host ? ENV.DB_HOST }}", &env)
		.unwrap();
	assert_eq!(result, "connect ***");
}

#[test]
fn substitute_redacted_chained_args_provided() {
	let args = RunArgs::parse(&["--host=localhost".into()]);
	let mut env = HashMap::new();
	env.insert("DB_HOST".to_string(), "db.internal".to_string());
	// ARGS.host IS provided → shown as-is (not redacted)
	let result = args
		.substitute_redacted("connect {{ ARGS.host ? ENV.DB_HOST }}", &env)
		.unwrap();
	assert_eq!(result, "connect localhost");
}

#[test]
fn substitute_redacted_flags_shown() {
	let args = RunArgs::parse(&["--verbose".into()]);
	let env = HashMap::new();
	let result = args
		.substitute_redacted("cmd {{ FLAGS.verbose ? '--verbose' : }}", &env)
		.unwrap();
	assert_eq!(result, "cmd --verbose");
}

#[test]
fn substitute_redacted_preserves_non_placeholder_text() {
	let args = RunArgs::parse(&[]);
	let env = HashMap::new();
	let result = args.substitute_redacted("echo hello world", &env).unwrap();
	assert_eq!(result, "echo hello world");
}

#[test]
fn substitute_empty_default_returns_empty_string() {
	let args = RunArgs::parse(&[]);
	let result = args.substitute_no_env("echo {{ ARGS.env ? }}").unwrap();
	assert_eq!(result, "echo ");
}

#[test]
fn substitute_missing_arg_without_default_errors() {
	let args = RunArgs::parse(&[]);
	let result = args.substitute_no_env("echo {{ ARGS.env }}");
	assert!(result.is_err());
	let err = result.unwrap_err();
	assert!(err.message().contains("env"));
}

#[test]
fn substitute_present_arg_without_default_works() {
	let args = RunArgs::parse(&["--env=prod".into()]);
	let result = args.substitute_no_env("echo {{ ARGS.env }}").unwrap();
	assert_eq!(result, "echo prod");
}

#[test]
fn substitute_env_basic() {
	let args = RunArgs::parse(&[]);
	let mut env = HashMap::new();
	env.insert("NODE_ENV".into(), "production".into());
	let result = args.substitute("echo {{ ENV.NODE_ENV }}", &env).unwrap();
	assert_eq!(result, "echo production");
}

#[test]
fn substitute_env_case_insensitive() {
	let args = RunArgs::parse(&[]);
	let mut env = HashMap::new();
	env.insert("NODE_ENV".into(), "production".into());
	let result = args.substitute("echo {{ ENV.node_env }}", &env).unwrap();
	assert_eq!(result, "echo production");
}

#[test]
fn substitute_env_with_default() {
	let args = RunArgs::parse(&[]);
	let env = HashMap::new();
	let result = args
		.substitute("echo {{ ENV.NODE_ENV ? 'development' }}", &env)
		.unwrap();
	assert_eq!(result, "echo development");
}

#[test]
fn substitute_env_with_empty_default() {
	let args = RunArgs::parse(&[]);
	let env = HashMap::new();
	let result = args.substitute("echo {{ ENV.NODE_ENV ? }}", &env).unwrap();
	assert_eq!(result, "echo ");
}

#[test]
fn substitute_env_missing_errors() {
	let args = RunArgs::parse(&[]);
	let env = HashMap::new();
	let result = args.substitute("echo {{ ENV.NODE_ENV }}", &env);
	assert!(result.is_err());
	assert!(result.unwrap_err().message().contains("NODE_ENV"));
}

#[test]
fn substitute_env_present_overrides_default() {
	let args = RunArgs::parse(&[]);
	let mut env = HashMap::new();
	env.insert("NODE_ENV".into(), "staging".into());
	let result = args
		.substitute("echo {{ ENV.NODE_ENV ? 'development' }}", &env)
		.unwrap();
	assert_eq!(result, "echo staging");
}

#[test]
fn substitute_chain_args_then_env() {
	let args = RunArgs::parse(&[]);
	let mut env = HashMap::new();
	env.insert("MY_ENV".into(), "from_env".into());
	let result = args
		.substitute("echo {{ ARGS.key ? ENV.MY_ENV ? 'fallback' }}", &env)
		.unwrap();
	assert_eq!(result, "echo from_env");
}

#[test]
fn substitute_chain_args_wins_over_env() {
	let args = RunArgs::parse(&["--key=from_args".into()]);
	let mut env = HashMap::new();
	env.insert("MY_ENV".into(), "from_env".into());
	let result = args
		.substitute("echo {{ ARGS.key ? ENV.MY_ENV ? 'fallback' }}", &env)
		.unwrap();
	assert_eq!(result, "echo from_args");
}

#[test]
fn substitute_chain_falls_through_to_literal() {
	let args = RunArgs::parse(&[]);
	let env = HashMap::new();
	let result = args
		.substitute("echo {{ ARGS.key ? ENV.MY_ENV ? 'fallback' }}", &env)
		.unwrap();
	assert_eq!(result, "echo fallback");
}

#[test]
fn substitute_chain_env_then_env() {
	let args = RunArgs::parse(&[]);
	let mut env = HashMap::new();
	env.insert("SECONDARY".into(), "second".into());
	let result = args
		.substitute("echo {{ ENV.PRIMARY ? ENV.SECONDARY ? 'none' }}", &env)
		.unwrap();
	assert_eq!(result, "echo second");
}

#[test]
fn substitute_chain_with_empty_default() {
	let args = RunArgs::parse(&[]);
	let env = HashMap::new();
	let result = args.substitute("echo {{ ARGS.key ? ENV.MISSING ? }}", &env).unwrap();
	assert_eq!(result, "echo ");
}

#[test]
fn substitute_env_and_args_in_same_command() {
	let args = RunArgs::parse(&["--port=9090".into()]);
	let mut env = HashMap::new();
	env.insert("HOST".into(), "localhost".into());
	let result = args
		.substitute("server --host={{ ENV.HOST }} --port={{ ARGS.port ? '8080' }}", &env)
		.unwrap();
	assert_eq!(result, "server --host=localhost --port=9090");
}

#[test]
fn scan_args_detects_positional() {
	let cmds = vec!["echo {{ ARGS }}".into()];
	let (positional, named) = scan_args_usage(&cmds);
	assert!(positional);
	assert!(named.is_empty());
}

#[test]
fn scan_args_detects_named() {
	let cmds = vec!["echo {{ ARGS.env }}".into(), "echo {{ ARGS.port ? '8080' }}".into()];
	let (positional, named) = scan_args_usage(&cmds);
	assert!(!positional);
	assert!(named.contains("env"));
	assert!(named.contains("port"));
}

#[test]
fn scan_args_detects_both() {
	let cmds = vec!["echo {{ ARGS.env }} {{ ARGS }}".into()];
	let (positional, named) = scan_args_usage(&cmds);
	assert!(positional);
	assert!(named.contains("env"));
}

#[test]
fn scan_args_no_patterns() {
	let cmds = vec!["echo hello".into(), "npm run build".into()];
	let (positional, named) = scan_args_usage(&cmds);
	assert!(!positional);
	assert!(named.is_empty());
}

#[test]
fn validate_args_no_args_always_ok() {
	let args = RunArgs::default();
	let cmds = vec!["echo hello".into()];
	assert!(validate_args(&args, &cmds).is_ok());
}

#[test]
fn validate_args_unexpected_args_error() {
	let args = RunArgs::parse(&["foo".into()]);
	let cmds = vec!["echo hello".into()];
	let err = validate_args(&args, &cmds).unwrap_err();
	assert!(
		err.message().contains("No command in this target accepts arguments"),
		"Expected UnexpectedArgs, got: {err:?}"
	);
}

#[test]
fn validate_args_unexpected_named_args_error() {
	let args = RunArgs::parse(&["--env=prod".into()]);
	let cmds = vec!["echo hello".into()];
	let err = validate_args(&args, &cmds).unwrap_err();
	assert!(
		err.message().contains("No command in this target accepts arguments"),
		"Expected UnexpectedArgs, got: {err:?}"
	);
}

#[test]
fn validate_args_unknown_named_arg_error() {
	let args = RunArgs::parse(&["--env=prod".into(), "--port=8080".into()]);
	let cmds = vec!["echo {{ ARGS.env }}".into()]; // only {{ ARGS.env }}, not {{ ARGS.port }}
	let err = validate_args(&args, &cmds).unwrap_err();
	assert!(
		err.message().contains("Unknown named argument \"--port\""),
		"Expected UnknownNamedArg, got: {err:?}"
	);
}

#[test]
fn validate_args_known_named_arg_ok() {
	let args = RunArgs::parse(&["--env=prod".into()]);
	let cmds = vec!["echo {{ ARGS.env }}".into()];
	assert!(validate_args(&args, &cmds).is_ok());
}

#[test]
fn validate_args_positional_accepts_all() {
	// When {{ ARGS }} is used, all args are accepted (including unknown named ones)
	let args = RunArgs::parse(&["--env=prod".into(), "foo".into(), "bar".into()]);
	let cmds = vec!["echo {{ ARGS }}".into()];
	assert!(validate_args(&args, &cmds).is_ok());
}

#[test]
fn validate_args_named_only_rejects_positional() {
	// Commands only use {{ ARGS.env }}, but user passes positional args
	let args = RunArgs::parse(&["--env=prod".into(), "extra_arg".into()]);
	let cmds = vec!["echo {{ ARGS.env }}".into()];
	let err = validate_args(&args, &cmds).unwrap_err();
	assert!(
		err.message().contains("No command in this target accepts arguments")
			|| err.message().contains("extra_arg"),
		"Expected error about unexpected positional args, got: {err:?}"
	);
}

#[test]
fn validate_args_considers_dependency_commands() {
	// If the dependency uses {{ ARGS }}, args should be accepted
	let args = RunArgs::parse(&["world".into()]);
	let cmds = vec!["echo clean".into(), "echo {{ ARGS }}".into()];
	assert!(validate_args(&args, &cmds).is_ok());
}

#[test]
fn parse_bare_double_dash() {
	let args = RunArgs::parse(&["--".into()]);
	assert_eq!(args.original, vec!["--"]);
	// Bare "--" should not add to named (empty stripped)
	assert!(args.named.is_empty());
}

#[test]
fn parse_named_arg_with_empty_equals() {
	let args = RunArgs::parse(&["--key=".into()]);
	assert_eq!(args.named["key"], "");
}

#[test]
fn parse_flag_at_end_is_empty_string() {
	let args = RunArgs::parse(&["--verbose".into()]);
	assert_eq!(args.named.get("verbose").unwrap(), "");
}

#[test]
fn parse_flag_followed_by_another_flag() {
	let args = RunArgs::parse(&["--verbose".into(), "--debug".into()]);
	assert_eq!(args.named["verbose"], "");
	assert_eq!(args.named["debug"], "");
}

#[test]
fn substitute_shell_dollar_paren_expression_preserved() {
	// Shell `$(...)` command substitutions pass through verbatim — they're
	// not Runfile syntax and the substituter doesn't touch them.
	let args = RunArgs::parse(&[]);
	let result = args.substitute_no_env("echo $(date +%s)").unwrap();
	assert_eq!(result, "echo $(date +%s)");
}

#[test]
fn substitute_resolves_braces_inside_shell_command_substitution() {
	// A shell `$(...)` command substitution is opaque to Runfile — it stays
	// literal in the output. But any `{{ ... }}` reference *inside* the shell
	// substitution body is still resolved so users can do
	// `$(echo "{{ ARGS.env }}")` and have the env get substituted.
	let args = RunArgs::parse(&["--env=development".into()]);
	let result = args
		.substitute_no_env(r#"base=$(echo "$f" | sed 's/\.{{ ARGS.env }}$//')"#)
		.unwrap();
	assert_eq!(result, r#"base=$(echo "$f" | sed 's/\.development$//')"#);
}

#[test]
fn substitute_resolves_braces_in_deeply_nested_shell_substitution() {
	let args = RunArgs::parse(&["--name=world".into()]);
	let mut env = HashMap::new();
	env.insert("GREETING".to_string(), "hello".to_string());
	let result = args
		.substitute(r#"x=$(printf '%s' $(echo "{{ ENV.GREETING }} {{ ARGS.name }}"))"#, &env)
		.unwrap();
	assert_eq!(result, r#"x=$(printf '%s' $(echo "hello world"))"#);
}

#[test]
fn substitute_propagates_missing_arg_inside_shell_substitution() {
	// A missing `{{ ARGS.x }}` inside a shell `$(...)` should still error
	// rather than silently leaking through unsubstituted.
	let args = RunArgs::parse(&[]);
	let err = args.substitute_no_env(r#"x=$(echo "{{ ARGS.missing }}")"#).unwrap_err();
	matches!(err, SubstitutionError::MissingArg(_));
}

#[test]
fn substitute_redacts_env_inside_shell_substitution() {
	let args = RunArgs::parse(&[]);
	let mut env = HashMap::new();
	env.insert("TOKEN".to_string(), "secret123".to_string());
	let result = args
		.substitute_redacted(r#"x=$(echo "{{ ENV.TOKEN }}")"#, &env)
		.unwrap();
	assert_eq!(result, r#"x=$(echo "***")"#);
}

#[test]
fn scan_args_usage_finds_args_inside_shell_substitution() {
	// validate_args needs to see `--env` referenced even when its only use
	// is nested inside a shell `$(echo {{ ARGS.env }})`-style command sub.
	let cmds = vec![r#"base=$(echo "$f" | sed 's/\.{{ ARGS.env }}$//')"#.into()];
	let (positional, named) = scan_args_usage(&cmds);
	assert!(!positional);
	assert!(named.contains("env"));
}

#[test]
fn substitute_multiple_args_placeholders() {
	let args = RunArgs::parse(&["hello".into()]);
	let result = args.substitute_no_env("echo {{ ARGS }} and {{ ARGS }}").unwrap();
	assert_eq!(result, "echo hello and hello");
}

#[test]
fn substitute_adjacent_dollar_signs() {
	let args = RunArgs::parse(&[]);
	let result = args.substitute_no_env("echo $$HOME").unwrap();
	assert_eq!(result, "echo $$HOME");
}

#[test]
fn substitute_dollar_without_paren() {
	let args = RunArgs::parse(&[]);
	let result = args.substitute_no_env("echo $HOME").unwrap();
	assert_eq!(result, "echo $HOME");
}

#[test]
fn substitute_escaped_open_brace_emits_literal() {
	let args = RunArgs::parse(&[]);
	let result = args.substitute_no_env(r"echo \{{ literal").unwrap();
	assert_eq!(result, "echo {{ literal");
}

#[test]
fn substitute_escaped_close_brace_emits_literal() {
	let args = RunArgs::parse(&[]);
	let result = args.substitute_no_env(r"echo not a sub \}}").unwrap();
	assert_eq!(result, "echo not a sub }}");
}

#[test]
fn substitute_escaped_pair_emits_literal_braces() {
	// A user wanting to print a literal `{{ X }}` token (e.g. when generating
	// templates for Jinja, Handlebars, etc.) writes both halves escaped.
	let args = RunArgs::parse(&[]);
	let result = args
		.substitute_no_env(r"template uses \{{ name \}} as a placeholder")
		.unwrap();
	assert_eq!(result, "template uses {{ name }} as a placeholder");
}

#[test]
fn substitute_escape_does_not_interfere_with_real_substitution() {
	// An escaped `\{{` followed by a real `{{ ARGS.x }}` should leave the
	// escape literal and still resolve the substitution.
	let args = RunArgs::parse(&["--name=alice".into()]);
	let result = args.substitute_no_env(r"prefix \{{ then {{ ARGS.name }}").unwrap();
	assert_eq!(result, "prefix {{ then alice");
}

#[test]
fn substitute_lone_backslash_is_preserved() {
	// A backslash that isn't part of `\{{` or `\}}` passes through unchanged
	// — needed so shell commands like `\\\"` and Windows paths still work.
	let args = RunArgs::parse(&[]);
	let result = args.substitute_no_env(r"echo C:\Windows\System32").unwrap();
	assert_eq!(result, r"echo C:\Windows\System32");
}

#[test]
fn substitute_double_backslash_before_brace_keeps_first_backslash() {
	// `\\{{` is `\` followed by an escaped `{{` — the inner escape consumes
	// `\{{` and emits literal `{{`, leaving the outer `\` intact.
	let args = RunArgs::parse(&[]);
	let result = args.substitute_no_env(r"\\{{ literal \\}}").unwrap();
	assert_eq!(result, r"\{{ literal \}}");
}

#[test]
fn substitute_escape_inside_shell_command_substitution() {
	// Mixing escapes with shell `$(...)` substitution: the bash `$(...)`
	// passes through verbatim, the escape produces a literal `{{`, and any
	// real `{{ ARGS.x }}` inside still resolves.
	let args = RunArgs::parse(&["--env=prod".into()]);
	let result = args
		.substitute_no_env(r#"sh -c $(echo "got \{{ {{ ARGS.env }} \}}")"#)
		.unwrap();
	assert_eq!(result, r#"sh -c $(echo "got {{ prod }}")"#);
}

#[test]
fn scan_args_usage_ignores_escaped_substitution() {
	// An escaped `\{{ ARGS.x \}}` is a literal — it should NOT register `x`
	// as a referenced argument (the validator would otherwise accept --x and
	// the runtime would never resolve it).
	let cmds = vec![r"echo \{{ ARGS.x \}}".into()];
	let (positional, named) = scan_args_usage(&cmds);
	assert!(!positional);
	assert!(
		named.is_empty(),
		"escaped substitution must not register arg keys: got {named:?}"
	);
}

#[test]
fn scan_args_usage_default_with_parens() {
	// Literal default values can contain parens — `{{ ... }}` matching is
	// brace-based, so `()` in the default doesn't break the scanner.
	let cmds = vec!["echo {{ ARGS.key ? default(value) }}".into()];
	let (positional, named) = scan_args_usage(&cmds);
	assert!(!positional);
	assert!(named.contains("key"));
}

#[test]
fn scan_args_detects_named_with_chained_fallback() {
	let cmds = vec!["echo {{ ARGS.env ? ENV.NODE_ENV ? 'production' }}".into()];
	let (positional, named) = scan_args_usage(&cmds);
	assert!(!positional);
	assert!(named.contains("env"));
}

#[test]
fn validate_args_empty_commands_rejects_args() {
	let args = RunArgs::parse(&["foo".into()]);
	let cmds: Vec<String> = vec![];
	let result = validate_args(&args, &cmds);
	assert!(result.is_err());
}

#[test]
fn substitute_env_chain_first_wins() {
	let args = RunArgs::parse(&[]);
	let mut env = HashMap::new();
	env.insert("FIRST".into(), "found".into());
	env.insert("SECOND".into(), "also_found".into());
	let result = args
		.substitute("echo {{ ENV.FIRST ? ENV.SECOND ? 'fallback' }}", &env)
		.unwrap();
	assert_eq!(result, "echo found");
}

#[test]
fn flags_basic_true() {
	let args = RunArgs::parse(&["--verbose".into()]);
	let result = args.substitute_no_env("echo {{ FLAGS.verbose }}").unwrap();
	assert_eq!(result, "echo true");
}

#[test]
fn flags_basic_false() {
	let args = RunArgs::parse(&[]);
	let result = args.substitute_no_env("echo {{ FLAGS.verbose }}").unwrap();
	assert_eq!(result, "echo false");
}

#[test]
fn flags_ternary_true() {
	let args = RunArgs::parse(&["--debug".into()]);
	let result = args.substitute_no_env("gcc {{ FLAGS.debug ? '-g' : '-O2' }}").unwrap();
	assert_eq!(result, "gcc -g");
}

#[test]
fn flags_ternary_false() {
	let args = RunArgs::parse(&[]);
	let result = args.substitute_no_env("gcc {{ FLAGS.debug ? '-g' : '-O2' }}").unwrap();
	assert_eq!(result, "gcc -O2");
}

#[test]
fn flags_ternary_with_spaces_in_values() {
	let args = RunArgs::parse(&["--color".into()]);
	let result = args
		.substitute_no_env("cmd {{ FLAGS.color ? '--color always' : '--color never' }}")
		.unwrap();
	assert_eq!(result, "cmd --color always");
}

#[test]
fn flags_ternary_with_spaces_false_branch() {
	let args = RunArgs::parse(&[]);
	let result = args
		.substitute_no_env("cmd {{ FLAGS.color ? '--color always' : '--color never' }}")
		.unwrap();
	assert_eq!(result, "cmd --color never");
}

#[test]
fn flags_no_colon_present() {
	let args = RunArgs::parse(&["--v".into()]);
	let result = args.substitute_no_env("cmd {{ FLAGS.v ? '-v' }}").unwrap();
	assert_eq!(result, "cmd -v");
}

#[test]
fn flags_no_colon_absent() {
	let args = RunArgs::parse(&[]);
	let result = args.substitute_no_env("cmd {{ FLAGS.v ? '-v' }}").unwrap();
	assert_eq!(result, "cmd ");
}

#[test]
fn flags_empty_true_branch() {
	let args = RunArgs::parse(&["--quiet".into()]);
	let result = args.substitute_no_env("cmd {{ FLAGS.quiet ? : '--verbose' }}").unwrap();
	assert_eq!(result, "cmd ");
}

#[test]
fn flags_empty_false_branch() {
	let args = RunArgs::parse(&[]);
	let result = args.substitute_no_env("cmd {{ FLAGS.v ? '--verbose' : }}").unwrap();
	assert_eq!(result, "cmd ");
}

#[test]
fn flags_empty_false_branch_present() {
	let args = RunArgs::parse(&["--v".into()]);
	let result = args.substitute_no_env("cmd {{ FLAGS.v ? '--verbose' : }}").unwrap();
	assert_eq!(result, "cmd --verbose");
}

#[test]
fn flags_consumed_from_args() {
	let args = RunArgs::parse(&["--verbose".into(), "foo".into(), "bar".into()]);
	let result = args.substitute_no_env("cmd {{ FLAGS.verbose }} {{ ARGS }}").unwrap();
	assert_eq!(result, "cmd true foo bar");
}

#[test]
fn flags_absent_not_consumed_from_args() {
	let args = RunArgs::parse(&["foo".into(), "bar".into()]);
	let result = args.substitute_no_env("cmd {{ FLAGS.verbose }} {{ ARGS }}").unwrap();
	assert_eq!(result, "cmd false foo bar");
}

#[test]
fn flags_with_value_still_true() {
	// --verbose=yes should still be "true" for FLAGS (presence only)
	let args = RunArgs::parse(&["--verbose=yes".into()]);
	let result = args.substitute_no_env("echo {{ FLAGS.verbose }}").unwrap();
	assert_eq!(result, "echo true");
}

#[test]
fn flags_with_space_value_still_true() {
	// --verbose something should still be "true" for FLAGS
	let args = RunArgs::parse(&["--verbose".into(), "something".into()]);
	let result = args.substitute_no_env("echo {{ FLAGS.verbose }}").unwrap();
	assert_eq!(result, "echo true");
}

#[test]
fn flags_multiple() {
	let args = RunArgs::parse(&["--verbose".into(), "--debug".into()]);
	let result = args
		.substitute_no_env("cmd {{ FLAGS.verbose }} {{ FLAGS.debug }}")
		.unwrap();
	assert_eq!(result, "cmd true true");
}

#[test]
fn flags_multiple_mixed_presence() {
	let args = RunArgs::parse(&["--verbose".into()]);
	let result = args
		.substitute_no_env("cmd {{ FLAGS.verbose }} {{ FLAGS.debug }}")
		.unwrap();
	assert_eq!(result, "cmd true false");
}

#[test]
fn flags_mixed_with_args_named() {
	let args = RunArgs::parse(&["--verbose".into(), "--env=prod".into()]);
	let result = args
		.substitute_no_env("cmd {{ FLAGS.verbose }} env={{ ARGS.env }}")
		.unwrap();
	assert_eq!(result, "cmd true env=prod");
}

#[test]
fn flags_mixed_with_args_positional() {
	let args = RunArgs::parse(&["--verbose".into(), "file.txt".into()]);
	let result = args.substitute_no_env("cmd {{ FLAGS.verbose }} {{ ARGS }}").unwrap();
	assert_eq!(result, "cmd true file.txt");
}

#[test]
fn flags_ternary_complex_values() {
	let args = RunArgs::parse(&["--side-effects".into()]);
	let result = args
		.substitute_no_env("cmd {{ FLAGS.side-effects ? '-run -startup 3' : '-donotrun' }}")
		.unwrap();
	assert_eq!(result, "cmd -run -startup 3");
}

#[test]
fn flags_ternary_complex_values_false() {
	let args = RunArgs::parse(&[]);
	let result = args
		.substitute_no_env("cmd {{ FLAGS.side-effects ? '-run -startup 3' : '-donotrun' }}")
		.unwrap();
	assert_eq!(result, "cmd -donotrun");
}

#[test]
fn flags_ternary_url_colons_preserved() {
	// Colons in URLs should not be treated as ternary separator (only " : " is)
	let args = RunArgs::parse(&["--ssl".into()]);
	let result = args
		.substitute_no_env("cmd {{ FLAGS.ssl ? 'https://secure.example.com' : 'http://example.com' }}")
		.unwrap();
	assert_eq!(result, "cmd https://secure.example.com");
}

#[test]
fn flags_ternary_url_colons_false_branch() {
	let args = RunArgs::parse(&[]);
	let result = args
		.substitute_no_env("cmd {{ FLAGS.ssl ? 'https://secure.example.com' : 'http://example.com' }}")
		.unwrap();
	assert_eq!(result, "cmd http://example.com");
}

#[test]
fn flags_scan_detects_flags() {
	let cmds = vec!["echo {{ FLAGS.verbose }}".into()];
	let (positional, named) = scan_args_usage(&cmds);
	assert!(!positional);
	assert!(named.contains("verbose"));
}

#[test]
fn flags_scan_detects_flags_with_ternary() {
	let cmds = vec!["echo {{ FLAGS.debug ? '-g' : '-O2' }}".into()];
	let (positional, named) = scan_args_usage(&cmds);
	assert!(!positional);
	assert!(named.contains("debug"));
}

#[test]
fn flags_scan_mixed_with_args() {
	let cmds = vec!["echo {{ FLAGS.verbose }} {{ ARGS.env }}".into()];
	let (positional, named) = scan_args_usage(&cmds);
	assert!(!positional);
	assert!(named.contains("verbose"));
	assert!(named.contains("env"));
}

#[test]
fn flags_validate_accepts_flag_args() {
	let args = RunArgs::parse(&["--verbose".into()]);
	let cmds = vec!["echo {{ FLAGS.verbose }}".into()];
	assert!(validate_args(&args, &cmds).is_ok());
}

#[test]
fn flags_validate_rejects_unknown_flag() {
	let args = RunArgs::parse(&["--verbose".into(), "--unknown".into()]);
	let cmds = vec!["echo {{ FLAGS.verbose }}".into()];
	let err = validate_args(&args, &cmds).unwrap_err();
	assert!(
		err.message().contains("unknown"),
		"Expected UnknownNamedArg, got: {err:?}"
	);
}

#[test]
fn flags_validate_mixed_flags_and_args() {
	let args = RunArgs::parse(&["--verbose".into(), "--env=prod".into()]);
	let cmds = vec!["echo {{ FLAGS.verbose }} {{ ARGS.env }}".into()];
	assert!(validate_args(&args, &cmds).is_ok());
}

#[test]
fn flags_in_env_substitution() {
	let args = RunArgs::parse(&["--debug".into()]);
	let env = HashMap::new();
	let result = args
		.substitute("echo {{ FLAGS.debug ? '--inspect' : '--no-inspect' }}", &env)
		.unwrap();
	assert_eq!(result, "echo --inspect");
}

#[test]
fn flags_multiple_in_same_command() {
	let args = RunArgs::parse(&["--verbose".into(), "--release".into()]);
	let result = args
		.substitute_no_env("cargo build {{ FLAGS.verbose ? '-v' : }} {{ FLAGS.release ? '--release' : }}")
		.unwrap();
	assert_eq!(result, "cargo build -v --release");
}

#[test]
fn flags_multiple_in_same_command_none_set() {
	let args = RunArgs::parse(&[]);
	let result = args
		.substitute_no_env("cargo build {{ FLAGS.verbose ? '-v' : }} {{ FLAGS.release ? '--release' : }}")
		.unwrap();
	assert_eq!(result, "cargo build  ");
}

#[test]
fn flags_consumed_with_value_from_args() {
	// --verbose=yes used as FLAGS should consume the --verbose=yes token from {{ ARGS }}
	let args = RunArgs::parse(&["--verbose=yes".into(), "file.txt".into()]);
	let result = args.substitute_no_env("cmd {{ FLAGS.verbose }} {{ ARGS }}").unwrap();
	assert_eq!(result, "cmd true file.txt");
}

#[test]
fn flags_hyphenated_key() {
	let args = RunArgs::parse(&["--dry-run".into()]);
	let result = args.substitute_no_env("echo {{ FLAGS.dry-run }}").unwrap();
	assert_eq!(result, "echo true");
}

#[test]
fn flags_hyphenated_key_ternary() {
	let args = RunArgs::parse(&["--dry-run".into()]);
	let result = args
		.substitute_no_env("cmd {{ FLAGS.dry-run ? '--dry-run' : '--execute' }}")
		.unwrap();
	assert_eq!(result, "cmd --dry-run");
}

#[test]
fn run_os_resolves() {
	let args = args_with_run("bash");
	let result = args.substitute_no_env("echo {{ RUN.os }}").unwrap();
	assert_eq!(result, "echo linux");
}

#[test]
fn run_shell_resolves() {
	let args = args_with_run("powershell");
	let result = args.substitute_no_env("echo {{ RUN.shell }}").unwrap();
	assert_eq!(result, "echo powershell");
}

#[test]
fn run_arch_resolves() {
	// Override arch directly so the assertion doesn't depend on the host
	// architecture (CI runners are mostly x86_64 but ARM is increasingly
	// common). The detection itself is exercised by `run_arch_detection_*`.
	let args = RunArgs::parse(&[]).with_run_context(RunContext {
		os: "linux".to_string(),
		arch: "arm64".to_string(),
		shell: "bash".to_string(),
		..Default::default()
	});
	let result = args.substitute_no_env("echo {{ RUN.arch }}").unwrap();
	assert_eq!(result, "echo arm64");
}

#[test]
fn run_unknown_key_errors() {
	let args = args_with_run("bash");
	let err = args.substitute_no_env("echo {{ RUN.unknown }}").unwrap_err();
	let msg = err.message();
	assert!(msg.contains("unknown"), "unexpected error: {msg}");
	assert!(msg.contains("os"), "expected error to mention valid keys: {msg}");
}

#[test]
fn run_in_chained_fallback() {
	// {{ ARGS.shell ? RUN.shell }} — falls back when ARGS not provided.
	let args = args_with_run("zsh");
	let result = args.substitute_no_env("echo {{ ARGS.shell ? RUN.shell }}").unwrap();
	assert_eq!(result, "echo zsh");
}

#[test]
fn run_with_default_when_unknown() {
	// Unknown RUN key followed by literal default still works.
	let args = args_with_run("bash");
	let result = args.substitute_no_env("echo {{ RUN.unknown ? 'fallback' }}").unwrap();
	assert_eq!(result, "echo fallback");
}

#[test]
fn run_does_not_consume_named_args() {
	// {{ RUN.shell }} must not influence {{ ARGS }} — RUN keys are not user input.
	let args = RunArgs::parse(&["foo".into(), "--keep=true".into()]).with_run_context(RunContext {
		os: "linux".into(),
		shell: "bash".into(),
		..Default::default()
	});
	let result = args.substitute_no_env("cmd {{ RUN.shell }} {{ ARGS }}").unwrap();
	assert_eq!(result, "cmd bash foo --keep=true");
}

#[test]
fn run_redacted_substitute_does_not_redact() {
	// RUN values are not secrets — the redacted form should show them.
	let args = args_with_run("bash");
	let env = HashMap::new();
	let result = args
		.substitute_redacted("echo {{ RUN.os }}/{{ RUN.shell }}", &env)
		.unwrap();
	assert_eq!(result, "echo linux/bash");
}

#[test]
fn run_if_condition_runtime_execution() {
	// Substitution-DSL form: the whole comparison is inside `{{ ... }}` and
	// resolves to "true" or "false".
	let env = HashMap::new();

	let bash_args = args_with_run("bash");
	let result = bash_args.substitute("{{ RUN.shell == 'bash' }}", &env).unwrap();
	assert_eq!(result, "true");

	let zsh_args = args_with_run("zsh");
	let result = zsh_args.substitute("{{ RUN.shell == 'bash' }}", &env).unwrap();
	assert_eq!(result, "false");
}

#[test]
fn run_for_in_substitutes_run_values() {
	// `for in: ["{{ RUN.os }}", "ci"]` should expand {{ RUN.os }} per element.
	let args = args_with_run("bash");
	let result = args.substitute_no_env("{{ RUN.os }}").unwrap();
	assert_eq!(result, "linux");
}

#[test]
fn run_negated_inequality() {
	let env = HashMap::new();
	let linux_args = args_with_run("bash");
	let result = linux_args.substitute("{{ RUN.os != 'windows' }}", &env).unwrap();
	assert_eq!(result, "true");
}

#[test]
fn dsl_strict_truthiness_only_true_false_empty_accepted() {
	let args = RunArgs::default();
	let env = HashMap::new();

	// "true" is truthy
	let result = args.substitute("{{ 'true' && 'true' }}", &env).unwrap();
	assert_eq!(result, "true");

	// "false" is falsy
	let result = args.substitute("{{ 'false' || 'false' }}", &env).unwrap();
	assert_eq!(result, "false");

	// empty is falsy
	let result = args.substitute("{{ '' || '' }}", &env).unwrap();
	assert_eq!(result, "false");
}

#[test]
fn dsl_truthy_errors_on_non_boolean_value() {
	let args = RunArgs::default();
	let env = HashMap::new();

	// `'foo'` isn't a boolean — bare truthy check errors.
	let err = args.substitute("{{ 'foo' && 'true' }}", &env).unwrap_err();
	let msg = err.message();
	assert!(
		msg.contains("not a boolean"),
		"expected DslValueNotBoolean error, got: {msg}"
	);

	// Same for "True" (case-sensitive).
	let err = args.substitute("{{ 'True' && 'true' }}", &env).unwrap_err();
	assert!(err.message().contains("not a boolean"));
}

#[test]
fn dsl_in_substitution_short_circuit() {
	let args = RunArgs::default();
	let env = HashMap::new();

	// `||` short-circuits: first arm true means the second isn't evaluated.
	// VARS.missing would error if it were resolved, so the test passing
	// proves short-circuiting.
	let result = args.substitute("{{ 'true' || VARS.missing }}", &env).unwrap();
	assert_eq!(result, "true");

	// `&&` short-circuits on first false arm.
	let result = args.substitute("{{ 'false' && VARS.missing }}", &env).unwrap();
	assert_eq!(result, "false");

	// Empty arm also short-circuits AND.
	let result = args.substitute("{{ '' && VARS.missing }}", &env).unwrap();
	assert_eq!(result, "false");
}

#[test]
fn dsl_flags_works_as_bare_boolean() {
	// The killer feature: `FLAGS.x` resolves to `"true"`/`"false"` —
	// both valid under the strict rule — so it can be used as a bare
	// boolean inside the DSL without the explicit `== 'true'` check.
	let env = HashMap::new();

	// Flag present → "true".
	let args = RunArgs::parse(&["--wsl".into()]);
	let result = args.substitute("{{ RUN.os == 'windows' && FLAGS.wsl }}", &env).unwrap();
	// RUN.os depends on host — just confirm it returns a boolean string.
	assert!(matches!(result.as_str(), "true" | "false"));

	// Flag absent → "false". Force a known truthy left-arm via 'true'.
	let args_off = RunArgs::parse(&[]);
	let result = args_off.substitute("{{ 'true' && FLAGS.wsl }}", &env).unwrap();
	assert_eq!(result, "false");

	// Flag present + truthy left-arm → "true".
	let args_on = RunArgs::parse(&["--wsl".into()]);
	let result = args_on.substitute("{{ 'true' && FLAGS.wsl }}", &env).unwrap();
	assert_eq!(result, "true");
}

#[test]
fn dsl_negated_flag_works_as_bare_boolean() {
	// `!FLAGS.x` works because the inner Truthy resolves to a boolean.
	let env = HashMap::new();
	let args = RunArgs::parse(&[]);
	let result = args.substitute("{{ !FLAGS.wsl }}", &env).unwrap();
	assert_eq!(result, "true");

	let args = RunArgs::parse(&["--wsl".into()]);
	let result = args.substitute("{{ !FLAGS.wsl }}", &env).unwrap();
	assert_eq!(result, "false");
}

#[test]
fn dsl_in_substitution_uses_vars() {
	let args = RunArgs::default();
	args.vars.lock().unwrap().insert("color".to_string(), "red".to_string());
	let env = HashMap::new();
	let result = args.substitute("{{ VARS.color == 'red' }}", &env).unwrap();
	assert_eq!(result, "true");
	let result = args.substitute("{{ VARS.color == 'blue' }}", &env).unwrap();
	assert_eq!(result, "false");
}

#[test]
fn missing_args_prompts_and_uses_answer() {
	let prompter = Arc::new(MockPrompter::default().with_value("ARGS.name", Some("alice")));
	let args = args_with(prompter.clone());
	let result = args.substitute("hello {{ ARGS.name }}", &HashMap::new()).unwrap();
	assert_eq!(result, "hello alice");
	let calls = prompter.value_calls.lock().unwrap();
	assert_eq!(calls.len(), 1);
	assert_eq!(calls[0], ("ARGS.name".to_string(), None));
}

#[test]
fn missing_args_with_default_prompts_and_falls_through_when_empty() {
	// Empty answer (None) should fall through to the literal default.
	let prompter = Arc::new(MockPrompter::default().with_value("ARGS.env", None));
	let args = args_with(prompter.clone());
	let result = args
		.substitute("env={{ ARGS.env ? 'production' }}", &HashMap::new())
		.unwrap();
	assert_eq!(result, "env=production");
	let calls = prompter.value_calls.lock().unwrap();
	assert_eq!(calls[0], ("ARGS.env".to_string(), Some("production".to_string())));
}

#[test]
fn missing_args_with_default_prompts_and_overrides_when_provided() {
	let prompter = Arc::new(MockPrompter::default().with_value("ARGS.env", Some("staging")));
	let args = args_with(prompter);
	let result = args
		.substitute("env={{ ARGS.env ? 'production' }}", &HashMap::new())
		.unwrap();
	assert_eq!(result, "env=staging");
}

#[test]
fn missing_args_no_default_no_answer_errors() {
	// Required substitution; user pressed Enter; nothing else in the chain
	// → fall through to MissingArg as if --stdin-args wasn't set.
	let prompter = Arc::new(MockPrompter::default().with_value("ARGS.name", None));
	let args = args_with(prompter);
	let err = args.substitute("hi {{ ARGS.name }}", &HashMap::new()).unwrap_err();
	assert!(matches!(err, SubstitutionError::MissingArg(ref k) if k == "name"));
}

#[test]
fn provided_args_skip_prompt() {
	let prompter = Arc::new(MockPrompter::default());
	let args = RunArgs::parse(&["--name=bob".into()]).with_stdin_prompter(Some(prompter.clone()));
	let result = args.substitute("hi {{ ARGS.name }}", &HashMap::new()).unwrap();
	assert_eq!(result, "hi bob");
	assert!(prompter.value_calls.lock().unwrap().is_empty());
}

#[test]
fn missing_env_prompts_and_uses_answer() {
	let prompter = Arc::new(MockPrompter::default().with_value("ENV.SECRET", Some("hush")));
	let args = args_with(prompter);
	let result = args.substitute("token={{ ENV.SECRET }}", &HashMap::new()).unwrap();
	assert_eq!(result, "token=hush");
}

#[test]
fn provided_env_skips_prompt() {
	let prompter = Arc::new(MockPrompter::default());
	let args = args_with(prompter.clone());
	let mut env = HashMap::new();
	env.insert("HOST".to_string(), "example.com".to_string());
	let result = args.substitute("host={{ ENV.HOST }}", &env).unwrap();
	assert_eq!(result, "host=example.com");
	assert!(prompter.value_calls.lock().unwrap().is_empty());
}

#[test]
fn chain_args_to_env_to_default_prompts_once_with_first_source_key() {
	// `{{ ARGS.x ? ENV.X ? 'fallback' }}` — neither set, prompt key is
	// the first source (ARGS.x), default is "fallback".
	let prompter = Arc::new(MockPrompter::default().with_value("ARGS.x", Some("entered")));
	let args = args_with(prompter.clone());
	let result = args
		.substitute("v={{ ARGS.x ? ENV.X ? 'fallback' }}", &HashMap::new())
		.unwrap();
	assert_eq!(result, "v=entered");
	let calls = prompter.value_calls.lock().unwrap();
	assert_eq!(calls.len(), 1);
	assert_eq!(calls[0], ("ARGS.x".to_string(), Some("fallback".to_string())));
}

#[test]
fn flags_missing_prompts_for_presence() {
	let prompter = Arc::new(MockPrompter::default().with_flag("--verbose", true));
	let args = args_with(prompter.clone());
	let result = args
		.substitute("cmd {{ FLAGS.verbose ? '-v' : }}", &HashMap::new())
		.unwrap();
	assert_eq!(result, "cmd -v");
	let calls = prompter.flag_calls.lock().unwrap();
	assert_eq!(calls.len(), 1);
	assert_eq!(calls[0], "--verbose");
}

#[test]
fn flags_provided_skips_prompt() {
	let prompter = Arc::new(MockPrompter::default());
	let args = RunArgs::parse(&["--verbose".into()]).with_stdin_prompter(Some(prompter.clone()));
	let result = args
		.substitute("cmd {{ FLAGS.verbose ? '-v' : }}", &HashMap::new())
		.unwrap();
	assert_eq!(result, "cmd -v");
	assert!(prompter.flag_calls.lock().unwrap().is_empty());
}

#[test]
fn flags_user_declines_returns_false_branch() {
	let prompter = Arc::new(MockPrompter::default().with_flag("--release", false));
	let args = args_with(prompter);
	let result = args
		.substitute(
			"cargo build {{ FLAGS.release ? '--release' : '--debug' }}",
			&HashMap::new(),
		)
		.unwrap();
	assert_eq!(result, "cargo build --debug");
}

#[test]
fn no_prompter_preserves_existing_error() {
	// Sanity check: with no prompter, missing args still error.
	let args = RunArgs::parse(&[]);
	let err = args.substitute("hi {{ ARGS.name }}", &HashMap::new()).unwrap_err();
	assert!(matches!(err, SubstitutionError::MissingArg(_)));
}

#[test]
fn to_upper_with_named_arg() {
	let args = RunArgs::parse(&["--env=prod".into()]);
	let result = args
		.substitute("deploy-{{ to_upper(ARGS.env) }}", &HashMap::new())
		.unwrap();
	assert_eq!(result, "deploy-PROD");
}

#[test]
fn to_lower_with_single_quoted_literal() {
	let args = RunArgs::parse(&[]);
	let result = args.substitute("{{ to_lower('HELLO') }}", &HashMap::new()).unwrap();
	assert_eq!(result, "hello");
}

#[test]
fn to_lower_with_single_quoted_spaces() {
	let args = RunArgs::parse(&[]);
	let result = args.substitute("{{ to_lower('FOO BAR') }}", &HashMap::new()).unwrap();
	assert_eq!(result, "foo bar");
}

#[test]
fn double_quotes_are_literal_chars() {
	// Double-quotes are NOT delimiters — they're part of the value.
	// `"hello"` evaluates to the 7-char string `"hello"` (with quotes).
	let args = RunArgs::parse(&[]);
	let result = args.substitute("{{ to_lower('\"HELLO\"') }}", &HashMap::new()).unwrap();
	assert_eq!(result, "\"hello\"");
}

#[test]
fn nested_calls_evaluate_inside_out() {
	let args = RunArgs::parse(&["--name=Foo".into()]);
	let result = args
		.substitute("{{ to_upper(to_lower(ARGS.name)) }}", &HashMap::new())
		.unwrap();
	assert_eq!(result, "FOO");
}

#[test]
fn base64_round_trip() {
	let args = RunArgs::parse(&["--payload=hello".into()]);
	let result = args
		.substitute("{{ base64_decode(base64_encode(ARGS.payload)) }}", &HashMap::new())
		.unwrap();
	assert_eq!(result, "hello");
}

#[test]
fn base64_encode_known_value() {
	let args = RunArgs::parse(&[]);
	let result = args.substitute("{{ base64_encode('foo') }}", &HashMap::new()).unwrap();
	assert_eq!(result, "Zm9v"); // standard base64 of "foo"
}

#[test]
fn base64_decode_invalid_errors() {
	let args = RunArgs::parse(&[]);
	let err = args
		.substitute("{{ base64_decode('not!base64*') }}", &HashMap::new())
		.unwrap_err();
	assert!(matches!(err, SubstitutionError::InvalidBase64(_)));
}

#[test]
fn base64_decode_non_utf8_errors() {
	// 0xFF is invalid as a leading UTF-8 byte. Standard base64 of [0xFF] is "/w==".
	let args = RunArgs::parse(&[]);
	let err = args
		.substitute("{{ base64_decode('/w==') }}", &HashMap::new())
		.unwrap_err();
	assert!(matches!(err, SubstitutionError::NonUtf8Decoded));
}

#[test]
fn concat_joins_multiple_args() {
	let args = RunArgs::parse(&["--name=alice".into()]);
	let result = args
		.substitute("{{ concat('hello-', ARGS.name, '-2026') }}", &HashMap::new())
		.unwrap();
	assert_eq!(result, "hello-alice-2026");
}

#[test]
fn concat_single_arg_works() {
	let args = RunArgs::parse(&[]);
	let result = args.substitute("{{ concat('only') }}", &HashMap::new()).unwrap();
	assert_eq!(result, "only");
}

#[test]
fn join_with_static_items() {
	let args = RunArgs::parse(&[]);
	let result = args
		.substitute("{{ join(' AND ', 'a', 'b', 'c') }}", &HashMap::new())
		.unwrap();
	assert_eq!(result, "a AND b AND c");
}

#[test]
fn join_with_args_and_functions() {
	let args = RunArgs::parse(&["--first=alice".into(), "--last=BOB".into()]);
	let result = args
		.substitute("{{ join(', ', ARGS.first, to_lower(ARGS.last)) }}", &HashMap::new())
		.unwrap();
	assert_eq!(result, "alice, bob");
}

#[test]
fn join_with_only_separator_returns_empty() {
	let args = RunArgs::parse(&[]);
	let result = args.substitute("{{ join('-') }}", &HashMap::new()).unwrap();
	assert_eq!(result, "");
}

#[test]
fn join_zero_args_errors() {
	let args = RunArgs::parse(&[]);
	let err = args.substitute("{{ join() }}", &HashMap::new()).unwrap_err();
	assert!(matches!(err, SubstitutionError::FunctionArity { ref name, .. } if name == "join"));
}

#[test]
fn join_empty_separator() {
	// `join('', a, b)` is equivalent to `concat(a, b)`.
	let args = RunArgs::parse(&[]);
	let result = args
		.substitute("{{ join('', 'x', 'y', 'z') }}", &HashMap::new())
		.unwrap();
	assert_eq!(result, "xyz");
}

#[test]
fn replace_all_basic() {
	let args = RunArgs::parse(&["--flags=flag-1 flag-2 flag-3".into()]);
	let result = args
		.substitute("{{ replace_all(ARGS.flags, ' ', ' AND ') }}", &HashMap::new())
		.unwrap();
	assert_eq!(result, "flag-1 AND flag-2 AND flag-3");
}

#[test]
fn replace_all_no_match_returns_original() {
	let args = RunArgs::parse(&[]);
	let result = args
		.substitute("{{ replace_all('hello', 'x', 'Y') }}", &HashMap::new())
		.unwrap();
	assert_eq!(result, "hello");
}

#[test]
fn replace_all_multiple_occurrences() {
	let args = RunArgs::parse(&[]);
	let result = args
		.substitute("{{ replace_all('aaa', 'a', 'bb') }}", &HashMap::new())
		.unwrap();
	assert_eq!(result, "bbbbbb");
}

#[test]
fn replace_all_empty_replacement_strips() {
	// Strip a substring entirely.
	let args = RunArgs::parse(&[]);
	let result = args
		.substitute("{{ replace_all('foo-bar-baz', '-', '') }}", &HashMap::new())
		.unwrap();
	assert_eq!(result, "foobarbaz");
}

#[test]
fn replace_all_wrong_arity_errors() {
	let args = RunArgs::parse(&[]);
	let err = args
		.substitute("{{ replace_all('a', 'b') }}", &HashMap::new())
		.unwrap_err();
	assert!(matches!(
		err,
		SubstitutionError::FunctionArity { ref name, got: 2, .. } if name == "replace_all"
	));
}

#[test]
fn replace_all_composes_with_other_functions() {
	let args = RunArgs::parse(&["--csv=a,b,c".into()]);
	let result = args
		.substitute("{{ to_upper(replace_all(ARGS.csv, ',', ' | ')) }}", &HashMap::new())
		.unwrap();
	assert_eq!(result, "A | B | C");
}

#[test]
fn remove_all_strips_every_occurrence() {
	let args = RunArgs::parse(&[]);
	let result = args
		.substitute("{{ remove_all('foo-bar-baz', '-') }}", &HashMap::new())
		.unwrap();
	assert_eq!(result, "foobarbaz");
}

#[test]
fn remove_all_no_match_returns_input() {
	let args = RunArgs::parse(&[]);
	let result = args
		.substitute("{{ remove_all('hello', 'x') }}", &HashMap::new())
		.unwrap();
	assert_eq!(result, "hello");
}

#[test]
fn remove_all_wrong_arity_errors() {
	let args = RunArgs::parse(&[]);
	let err = args.substitute("{{ remove_all('a') }}", &HashMap::new()).unwrap_err();
	assert!(matches!(
		err,
		SubstitutionError::FunctionArity { ref name, got: 1, .. } if name == "remove_all"
	));
}

#[test]
fn starts_with_true_and_false() {
	let args = RunArgs::parse(&[]);
	assert_eq!(
		args.substitute("{{ starts_with('hello world', 'hello') }}", &HashMap::new())
			.unwrap(),
		"true"
	);
	assert_eq!(
		args.substitute("{{ starts_with('hello world', 'world') }}", &HashMap::new())
			.unwrap(),
		"false"
	);
}

#[test]
fn ends_with_true_and_false() {
	let args = RunArgs::parse(&[]);
	assert_eq!(
		args.substitute("{{ ends_with('hello world', 'world') }}", &HashMap::new())
			.unwrap(),
		"true"
	);
	assert_eq!(
		args.substitute("{{ ends_with('hello world', 'hello') }}", &HashMap::new())
			.unwrap(),
		"false"
	);
}

#[test]
fn contains_true_and_false() {
	let args = RunArgs::parse(&[]);
	assert_eq!(
		args.substitute("{{ contains('hello world', 'lo wo') }}", &HashMap::new())
			.unwrap(),
		"true"
	);
	assert_eq!(
		args.substitute("{{ contains('hello world', 'xyz') }}", &HashMap::new())
			.unwrap(),
		"false"
	);
}

#[test]
fn boolean_function_works_as_dsl_truthy() {
	// starts_with returns "true"/"false" so it's a valid DSL Truthy value.
	let args = RunArgs::parse(&["--path=/usr/local/bin".into()]);
	let result = args
		.substitute(
			"{{ starts_with(ARGS.path, '/usr') && ends_with(ARGS.path, 'bin') }}",
			&HashMap::new(),
		)
		.unwrap();
	assert_eq!(result, "true");
}

#[test]
fn contains_wrong_arity_errors() {
	let args = RunArgs::parse(&[]);
	let err = args.substitute("{{ contains('a') }}", &HashMap::new()).unwrap_err();
	assert!(matches!(
		err,
		SubstitutionError::FunctionArity { ref name, got: 1, .. } if name == "contains"
	));
}

#[test]
fn capitalize_uppercases_first_letter_of_each_word() {
	let args = RunArgs::parse(&[]);
	let result = args
		.substitute("{{ capitalize('hello world') }}", &HashMap::new())
		.unwrap();
	assert_eq!(result, "Hello World");
}

#[test]
fn capitalize_preserves_internal_capitals() {
	let args = RunArgs::parse(&[]);
	let result = args
		.substitute("{{ capitalize('mcDonald hAs lUnch') }}", &HashMap::new())
		.unwrap();
	// First char of each word uppercased, rest passes through.
	assert_eq!(result, "McDonald HAs LUnch");
}

#[test]
fn capitalize_handles_tabs_and_multiple_spaces() {
	let mut env = HashMap::new();
	env.insert("V".into(), "foo  bar\tbaz".into());
	let args = RunArgs::parse(&[]);
	let result = args.substitute("{{ capitalize(ENV.V) }}", &env).unwrap();
	assert_eq!(result, "Foo  Bar\tBaz");
}

#[test]
fn capitalize_empty_string() {
	let args = RunArgs::parse(&[]);
	let result = args.substitute("{{ capitalize('') }}", &HashMap::new()).unwrap();
	assert_eq!(result, "");
}

#[test]
fn trim_strips_all_whitespace_both_sides() {
	let mut env = HashMap::new();
	env.insert("V".into(), "  \t hello \n ".into());
	let args = RunArgs::parse(&[]);
	let result = args.substitute("{{ trim(ENV.V) }}", &env).unwrap();
	assert_eq!(result, "hello");
}

#[test]
fn trim_start_only_left() {
	let mut env = HashMap::new();
	env.insert("V".into(), "  hello  ".into());
	let args = RunArgs::parse(&[]);
	let result = args.substitute("{{ trim_start(ENV.V) }}", &env).unwrap();
	assert_eq!(result, "hello  ");
}

#[test]
fn trim_end_only_right() {
	let mut env = HashMap::new();
	env.insert("V".into(), "  hello  ".into());
	let args = RunArgs::parse(&[]);
	let result = args.substitute("{{ trim_end(ENV.V) }}", &env).unwrap();
	assert_eq!(result, "  hello");
}

#[test]
fn length_counts_unicode_scalars_not_bytes() {
	// "héllo" is 6 bytes (é is 2 bytes in UTF-8) but 5 chars.
	let mut env = HashMap::new();
	env.insert("V".into(), "héllo".into());
	let args = RunArgs::parse(&[]);
	let result = args.substitute("{{ length(ENV.V) }}", &env).unwrap();
	assert_eq!(result, "5");
}

#[test]
fn length_empty_string() {
	let args = RunArgs::parse(&[]);
	let result = args.substitute("{{ length('') }}", &HashMap::new()).unwrap();
	assert_eq!(result, "0");
}

#[test]
fn escape_backslashes_control_chars_and_double_quotes() {
	// Build the raw value via base64_decode so the source string can carry
	// real control bytes.
	let args = RunArgs::parse(&[]);
	// "a\nb\tc\\d\"e" base64-encodes to: "YQpiCWNcZCJl"
	let result = args
		.substitute("{{ escape(base64_decode('YQpiCWNcZCJl')) }}", &HashMap::new())
		.unwrap();
	assert_eq!(result, "a\\nb\\tc\\\\d\\\"e");
}

#[test]
fn escape_passes_single_quotes_through() {
	let mut env = HashMap::new();
	env.insert("V".into(), "it's".into());
	let args = RunArgs::parse(&[]);
	let result = args.substitute("{{ escape(ENV.V) }}", &env).unwrap();
	// `'` is NOT escaped — Runfile uses `'...'` heavily, so leaving the
	// quote alone is the less surprising default.
	assert_eq!(result, "it's");
}

#[test]
fn escape_emits_hex_for_other_control_bytes() {
	// Bell = 0x07. base64("\x07") = "Bw==".
	let args = RunArgs::parse(&[]);
	let result = args
		.substitute("{{ escape(base64_decode('Bw==')) }}", &HashMap::new())
		.unwrap();
	assert_eq!(result, "\\x07");
}

#[test]
fn repeat_basic() {
	let args = RunArgs::parse(&[]);
	let result = args.substitute("{{ repeat('ab', '3') }}", &HashMap::new()).unwrap();
	assert_eq!(result, "ababab");
}

#[test]
fn repeat_zero_returns_empty() {
	let args = RunArgs::parse(&[]);
	let result = args.substitute("{{ repeat('hello', '0') }}", &HashMap::new()).unwrap();
	assert_eq!(result, "");
}

#[test]
fn repeat_count_can_come_from_args() {
	// Counts naturally come from runtime sources (ARGS / ENV / VARS) — the
	// quoted-literal form is just for static numbers in the Runfile.
	let args = RunArgs::parse(&["--n=4".into()]);
	let result = args.substitute("{{ repeat('ab', ARGS.n) }}", &HashMap::new()).unwrap();
	assert_eq!(result, "abababab");
}

#[test]
fn repeat_invalid_count_errors() {
	let args = RunArgs::parse(&[]);
	let err = args
		.substitute("{{ repeat('hi', 'oops') }}", &HashMap::new())
		.unwrap_err();
	assert!(matches!(
		err,
		SubstitutionError::InvalidNumber { ref name, .. } if name == "repeat"
	));
}

#[test]
fn regex_replace_collapses_whitespace_runs() {
	let mut env = HashMap::new();
	env.insert("V".into(), "hello   world\tagain".into());
	let args = RunArgs::parse(&[]);
	let result = args
		.substitute("{{ regex_replace(ENV.V, '\\s+', ' ') }}", &env)
		.unwrap();
	assert_eq!(result, "hello world again");
}

#[test]
fn regex_replace_supports_backreferences() {
	// `(\w+)=(\w+)` → `$2:$1` swaps key=value to value:key.
	let args = RunArgs::parse(&[]);
	let result = args
		.substitute(
			"{{ regex_replace('foo=bar', '(\\w+)=(\\w+)', '$2:$1') }}",
			&HashMap::new(),
		)
		.unwrap();
	assert_eq!(result, "bar:foo");
}

#[test]
fn regex_remove_strips_pattern() {
	let args = RunArgs::parse(&[]);
	let result = args
		.substitute("{{ regex_remove('keep-DEL-this-DEL-text', 'DEL-?') }}", &HashMap::new())
		.unwrap();
	assert_eq!(result, "keep-this-text");
}

#[test]
fn regex_matches_unanchored() {
	let args = RunArgs::parse(&[]);
	assert_eq!(
		args.substitute(
			"{{ regex_matches('v1.2.3', '^v\\d+\\.\\d+\\.\\d+$') }}",
			&HashMap::new()
		)
		.unwrap(),
		"true"
	);
	assert_eq!(
		args.substitute("{{ regex_matches('v1.2', '^v\\d+\\.\\d+\\.\\d+$') }}", &HashMap::new())
			.unwrap(),
		"false"
	);
}

#[test]
fn regex_invalid_pattern_errors() {
	let args = RunArgs::parse(&[]);
	// Unclosed `(` is a regex compile error.
	let err = args
		.substitute("{{ regex_matches('hello', '(unclosed') }}", &HashMap::new())
		.unwrap_err();
	assert!(matches!(
		err,
		SubstitutionError::InvalidRegex { ref name, .. } if name == "regex_matches"
	));
}

#[test]
fn regex_matches_works_as_dsl_truthy() {
	// regex_matches returns "true"/"false" → valid DSL Truthy.
	let args = RunArgs::parse(&["--tag=v1.0".into()]);
	let result = args
		.substitute("{{ regex_matches(ARGS.tag, '^v[0-9]+\\.[0-9]+$') }}", &HashMap::new())
		.unwrap();
	assert_eq!(result, "true");
}

#[test]
fn nth_indexes_into_split_result() {
	let args = RunArgs::parse(&["--csv=a,b,c".into()]);
	assert_eq!(
		args.substitute("{{ nth(ARGS.csv, ',', '0') }}", &HashMap::new())
			.unwrap(),
		"a"
	);
	assert_eq!(
		args.substitute("{{ nth(ARGS.csv, ',', '1') }}", &HashMap::new())
			.unwrap(),
		"b"
	);
	assert_eq!(
		args.substitute("{{ nth(ARGS.csv, ',', '2') }}", &HashMap::new())
			.unwrap(),
		"c"
	);
}

#[test]
fn nth_out_of_bounds_returns_empty() {
	// Documented: out-of-bounds is empty string, not an error. Lets
	// users compose without bound-checking when an empty result is
	// acceptable.
	let args = RunArgs::parse(&[]);
	let result = args.substitute("{{ nth('a,b', ',', '5') }}", &HashMap::new()).unwrap();
	assert_eq!(result, "");
}

#[test]
fn nth_multi_char_separator() {
	let args = RunArgs::parse(&[]);
	let result = args
		.substitute("{{ nth('one::two::three', '::', '1') }}", &HashMap::new())
		.unwrap();
	assert_eq!(result, "two");
}

#[test]
fn nth_preserves_empty_parts() {
	// Trailing/leading separator yields empty parts that nth must
	// surface verbatim — this is what makes the "missing slot" vs
	// "empty slot" distinction meaningful when paired with count_parts.
	let args = RunArgs::parse(&[]);
	assert_eq!(
		args.substitute("{{ nth('a,,c', ',', '1') }}", &HashMap::new()).unwrap(),
		""
	);
	assert_eq!(
		args.substitute("{{ nth(',a', ',', '0') }}", &HashMap::new()).unwrap(),
		""
	);
}

#[test]
fn nth_negative_index_errors_as_invalid_number() {
	// `parse_count` uses `usize::from_str`, so negative indices are
	// rejected — surface as InvalidNumber so the user gets a clear
	// pointer to the bad arg.
	let args = RunArgs::parse(&[]);
	let err = args
		.substitute("{{ nth('a,b', ',', '-1') }}", &HashMap::new())
		.unwrap_err();
	assert!(matches!(
		err,
		SubstitutionError::InvalidNumber { ref name, .. } if name == "nth"
	));
}

#[test]
fn nth_non_numeric_index_errors() {
	let args = RunArgs::parse(&[]);
	let err = args
		.substitute("{{ nth('a,b', ',', 'one') }}", &HashMap::new())
		.unwrap_err();
	assert!(matches!(
		err,
		SubstitutionError::InvalidNumber { ref name, .. } if name == "nth"
	));
}

#[test]
fn nth_wrong_arity_errors() {
	let args = RunArgs::parse(&[]);
	let err = args.substitute("{{ nth('a,b', ',') }}", &HashMap::new()).unwrap_err();
	assert!(matches!(
		err,
		SubstitutionError::FunctionArity { ref name, got: 2, .. } if name == "nth"
	));
}

#[test]
fn nth_index_from_args() {
	// Index can come from a substituted source — `parse_count` runs on
	// the resolved value, so `--i=2` Just Works.
	let args = RunArgs::parse(&["--csv=a,b,c".into(), "--i=2".into()]);
	let result = args
		.substitute("{{ nth(ARGS.csv, ',', ARGS.i) }}", &HashMap::new())
		.unwrap();
	assert_eq!(result, "c");
}

#[test]
fn first_returns_first_part() {
	let args = RunArgs::parse(&[]);
	assert_eq!(
		args.substitute("{{ first('a,b,c', ',') }}", &HashMap::new()).unwrap(),
		"a"
	);
}

#[test]
fn first_of_empty_string_is_empty() {
	// `"".split(",")` yields `[""]`, so the first part is `""`.
	let args = RunArgs::parse(&[]);
	let result = args.substitute("{{ first('', ',') }}", &HashMap::new()).unwrap();
	assert_eq!(result, "");
}

#[test]
fn first_with_no_separator_present_returns_whole_string() {
	let args = RunArgs::parse(&[]);
	let result = args
		.substitute("{{ first('hello world', ',') }}", &HashMap::new())
		.unwrap();
	assert_eq!(result, "hello world");
}

#[test]
fn last_returns_last_part() {
	let args = RunArgs::parse(&[]);
	assert_eq!(
		args.substitute("{{ last('a,b,c', ',') }}", &HashMap::new()).unwrap(),
		"c"
	);
}

#[test]
fn last_basename_idiom() {
	// `last(path, '/')` is the canonical "basename" use case.
	let args = RunArgs::parse(&["--path=/usr/local/bin/run".into()]);
	let result = args.substitute("{{ last(ARGS.path, '/') }}", &HashMap::new()).unwrap();
	assert_eq!(result, "run");
}

#[test]
fn last_trailing_separator_yields_empty() {
	let args = RunArgs::parse(&[]);
	let result = args.substitute("{{ last('a,b,', ',') }}", &HashMap::new()).unwrap();
	assert_eq!(result, "");
}

#[test]
fn count_parts_basic() {
	let args = RunArgs::parse(&[]);
	assert_eq!(
		args.substitute("{{ count_parts('a,b,c', ',') }}", &HashMap::new())
			.unwrap(),
		"3"
	);
}

#[test]
fn count_parts_empty_string_is_one() {
	// Rust split semantics: `"".split(",")` → `[""]` (one element).
	let args = RunArgs::parse(&[]);
	let result = args.substitute("{{ count_parts('', ',') }}", &HashMap::new()).unwrap();
	assert_eq!(result, "1");
}

#[test]
fn count_parts_counts_trailing_empty_part() {
	let args = RunArgs::parse(&[]);
	let result = args
		.substitute("{{ count_parts('a,b,', ',') }}", &HashMap::new())
		.unwrap();
	assert_eq!(result, "3");
}

#[test]
fn count_parts_no_separator_present_is_one() {
	let args = RunArgs::parse(&[]);
	let result = args
		.substitute("{{ count_parts('hello world', ',') }}", &HashMap::new())
		.unwrap();
	assert_eq!(result, "1");
}

#[test]
fn count_parts_works_as_dsl_value() {
	// `count_parts` returns a decimal string — usable in `==` checks
	// inside the substitution DSL.
	let args = RunArgs::parse(&["--csv=a,b,c".into()]);
	let result = args
		.substitute("{{ count_parts(ARGS.csv, ',') == '3' }}", &HashMap::new())
		.unwrap();
	assert_eq!(result, "true");
}

#[test]
fn split_accessors_compose_with_other_functions() {
	// nth + to_upper composition: pull a field out, transform it.
	let args = RunArgs::parse(&["--csv=alice,bob,carol".into()]);
	let result = args
		.substitute("{{ to_upper(nth(ARGS.csv, ',', '1')) }}", &HashMap::new())
		.unwrap();
	assert_eq!(result, "BOB");
}

#[test]
fn split_accessors_work_in_chain_segments() {
	// Function calls are valid chain segments — `nth` can be the
	// fallback or the leading segment.
	let args = RunArgs::parse(&[]);
	let result = args
		.substitute(
			"host={{ ARGS.host ? nth('default,fallback', ',', '0') }}",
			&HashMap::new(),
		)
		.unwrap();
	assert_eq!(result, "host=default");
}

#[test]
fn shell_quote_posix_simple() {
	let args = args_with_shell("bash");
	let result = args.substitute("{{ shell_quote('hello') }}", &HashMap::new()).unwrap();
	assert_eq!(result, "'hello'");
}

#[test]
fn shell_quote_posix_with_spaces_and_double_quotes() {
	// POSIX single-quotes preserve double quotes verbatim.
	let args = args_with_shell("bash");
	let result = args
		.substitute(
			"{{ shell_quote('it has \"double quotes\" and spaces') }}",
			&HashMap::new(),
		)
		.unwrap();
	assert_eq!(result, "'it has \"double quotes\" and spaces'");
}

#[test]
fn shell_quote_posix_escapes_single_quote() {
	// `'` inside the value is escaped via close-escape-reopen idiom.
	// Use ENV to carry the literal value — Runfile syntax has no way to
	// inline a `'` inside a single-quoted literal.
	let args = args_with_shell("zsh");
	let mut env = HashMap::new();
	env.insert("V".to_string(), "it's".to_string());
	let result = args.substitute("{{ shell_quote(ENV.V) }}", &env).unwrap();
	// Value is `it's` → quoted as `'it'\''s'`.
	assert_eq!(result, "'it'\\''s'");
}

#[test]
fn shell_quote_posix_handles_dollar_signs_and_backticks() {
	// Inside POSIX single quotes, `$` and backticks are literal — no
	// command substitution / variable expansion.
	let args = args_with_shell("sh");
	let result = args
		.substitute("{{ shell_quote('$HOME and `whoami`') }}", &HashMap::new())
		.unwrap();
	assert_eq!(result, "'$HOME and `whoami`'");
}

#[test]
fn shell_quote_posix_handles_newlines() {
	// Build a value containing an actual newline via base64_decode (the
	// Runfile single-quoted form doesn't support escape sequences, so we
	// can't put a literal newline inline). "line1\nline2" is base64
	// "bGluZTEKbGluZTI=".
	let args = args_with_shell("bash");
	let result = args
		.substitute("{{ shell_quote(base64_decode('bGluZTEKbGluZTI=')) }}", &HashMap::new())
		.unwrap();
	// POSIX single-quoted strings can carry literal newlines.
	assert_eq!(result, "'line1\nline2'");
}

#[test]
fn shell_quote_powershell_simple() {
	let args = args_with_shell("powershell");
	let result = args.substitute("{{ shell_quote('hello') }}", &HashMap::new()).unwrap();
	assert_eq!(result, "'hello'");
}

#[test]
fn shell_quote_powershell_escapes_single_quote() {
	// PowerShell escapes `'` as `''`.
	let args = args_with_shell("powershell");
	let mut env = HashMap::new();
	env.insert("V".to_string(), "it's".to_string());
	let result = args.substitute("{{ shell_quote(ENV.V) }}", &env).unwrap();
	assert_eq!(result, "'it''s'");
}

#[test]
fn shell_quote_powershell_keeps_double_quotes_verbatim() {
	let args = args_with_shell("powershell");
	let result = args
		.substitute("{{ shell_quote('say \"hi\"') }}", &HashMap::new())
		.unwrap();
	assert_eq!(result, "'say \"hi\"'");
}

#[test]
fn shell_quote_cmd_simple() {
	let args = args_with_shell("cmd");
	let result = args.substitute("{{ shell_quote('hello') }}", &HashMap::new()).unwrap();
	assert_eq!(result, "\"hello\"");
}

#[test]
fn shell_quote_cmd_escapes_double_quotes() {
	// cmd uses `""` to embed a `"` inside a `"..."` argument.
	let args = args_with_shell("cmd");
	let result = args
		.substitute("{{ shell_quote('say \"hi\"') }}", &HashMap::new())
		.unwrap();
	assert_eq!(result, "\"say \"\"hi\"\"\"");
}

#[test]
fn shell_quote_unknown_shell_falls_back_to_posix() {
	// Empty shell name (e.g. tests using RunArgs::default()) defaults to
	// POSIX-style single-quoting — the safest baseline for unix-likes.
	let args = RunArgs::default();
	let result = args.substitute("{{ shell_quote('hello') }}", &HashMap::new()).unwrap();
	assert_eq!(result, "'hello'");
}

#[test]
fn shell_quote_empty_string() {
	// An empty argument is `''` in POSIX, `''` in PowerShell, `""` in cmd.
	let args = args_with_shell("bash");
	let result = args.substitute("{{ shell_quote('') }}", &HashMap::new()).unwrap();
	assert_eq!(result, "''");
}

#[test]
fn shell_quote_composes_with_base64_decode() {
	// The headline use case: decode an env-var payload and inline it
	// safely as a CLI argument. The decoded JSON contains `"`, `:`, `\n`
	// and other shell-special chars — all preserved through the POSIX
	// single-quoted form.
	let mut env = HashMap::new();
	// {"key":"val"} base64-encoded.
	env.insert("PAYLOAD".to_string(), "eyJrZXkiOiJ2YWwifQ==".to_string());
	let args = args_with_shell("bash");
	let result = args
		.substitute("some-tool --json {{ shell_quote(base64_decode(ENV.PAYLOAD)) }}", &env)
		.unwrap();
	assert_eq!(result, "some-tool --json '{\"key\":\"val\"}'");
}

#[test]
fn function_chain_segment_with_fallback() {
	// Function call as a chain segment — used as the fallback when
	// the primary `ARGS.host` is missing.
	let mut env = HashMap::new();
	env.insert("HOST".to_string(), "Example.COM".to_string());
	let args = RunArgs::parse(&[]);
	let result = args.substitute("{{ ARGS.host ? to_lower(ENV.HOST) }}", &env).unwrap();
	assert_eq!(result, "example.com");
}

#[test]
fn function_arg_chain_default() {
	let args = RunArgs::parse(&[]);
	let result = args
		.substitute("{{ to_upper(ARGS.host ? 'localhost') }}", &HashMap::new())
		.unwrap();
	assert_eq!(result, "LOCALHOST");
}

#[test]
fn function_arg_run_context() {
	let args = RunArgs::parse(&[]).with_run_context(RunContext {
		os: "linux".into(),
		..Default::default()
	});
	let result = args.substitute("{{ to_upper(RUN.os) }}", &HashMap::new()).unwrap();
	assert_eq!(result, "LINUX");
}

#[test]
fn function_inside_for_loop_var() {
	// For-loops write the iteration variable into VARS — `to_lower(VARS.x)`
	// inside a `for` body resolves to the current iteration value.
	let args = RunArgs::parse(&[]);
	args.vars.lock().unwrap().insert("name".to_string(), "Foo".to_string());
	let result = args.substitute("{{ to_lower(VARS.name) }}", &HashMap::new()).unwrap();
	assert_eq!(result, "foo");
}

#[test]
fn function_arg_flags_ternary_works() {
	// The full FLAGS ternary form works inside a function argument
	// (chain-segment FLAGS only supports the boolean form).
	let args = RunArgs::parse(&["--debug".into()]);
	let result = args
		.substitute("{{ to_upper(FLAGS.debug ? 'on' : 'off') }}", &HashMap::new())
		.unwrap();
	assert_eq!(result, "ON");
}

#[test]
fn flags_in_chain_returns_boolean() {
	let args = RunArgs::parse(&["--release".into()]);
	let result = args
		.substitute("{{ ARGS.x ? FLAGS.release ? 'default' }}", &HashMap::new())
		.unwrap();
	assert_eq!(result, "true");
}

#[test]
fn define_writes_var_and_returns_empty() {
	let args = RunArgs::parse(&[]);
	let result = args
		.substitute("{{ define(sdkpath, '/opt/sdk') }}", &HashMap::new())
		.unwrap();
	assert_eq!(result, "");
	// Subsequent read sees the value.
	let v = args.substitute("[{{ VARS.sdkpath }}]", &HashMap::new()).unwrap();
	assert_eq!(v, "[/opt/sdk]");
}

#[test]
fn define_with_chain_value() {
	let args = RunArgs::parse(&[]);
	let _ = args
		.substitute("{{ define(sdkpath, ENV.SDK ? '/default/sdk') }}", &HashMap::new())
		.unwrap();
	let v = args.substitute("{{ VARS.sdkpath }}", &HashMap::new()).unwrap();
	assert_eq!(v, "/default/sdk");
}

#[test]
fn define_with_function_value() {
	let args = RunArgs::parse(&[]);
	let _ = args
		.substitute("{{ define(env, to_upper('prod')) }}", &HashMap::new())
		.unwrap();
	let v = args.substitute("{{ VARS.env }}", &HashMap::new()).unwrap();
	assert_eq!(v, "PROD");
}

#[test]
fn define_with_single_quoted_name_errors() {
	// Under the new quote-strict rules `define`'s first argument is a
	// bareword identifier — quotes (single or double) are NOT accepted.
	// `'my-var'` is the 7-char string `'my-var'` which fails the
	// identifier regex.
	let args = RunArgs::parse(&[]);
	let err = args
		.substitute("{{ define('my-var', 'hello') }}", &HashMap::new())
		.unwrap_err();
	assert!(matches!(err, SubstitutionError::InvalidVarName(_)));
}

#[test]
fn define_with_double_quoted_name_errors() {
	// Double-quotes are now part of the literal value, so the name
	// would be `"my-var"` (with quotes) — fails the identifier regex.
	let args = RunArgs::parse(&[]);
	let err = args
		.substitute("{{ define(\"my-var\", 'hello') }}", &HashMap::new())
		.unwrap_err();
	assert!(matches!(err, SubstitutionError::InvalidVarName(_)));
}

#[test]
fn missing_var_errors() {
	let args = RunArgs::parse(&[]);
	let err = args.substitute("{{ VARS.undefined }}", &HashMap::new()).unwrap_err();
	assert!(matches!(err, SubstitutionError::MissingVar(_)));
}

#[test]
fn missing_var_with_default_falls_through() {
	let args = RunArgs::parse(&[]);
	let result = args
		.substitute("{{ VARS.undefined ? 'fallback' }}", &HashMap::new())
		.unwrap();
	assert_eq!(result, "fallback");
}

#[test]
fn define_redefine_last_writer_wins() {
	let args = RunArgs::parse(&[]);
	let _ = args.substitute("{{ define(x, 'first') }}", &HashMap::new()).unwrap();
	let _ = args.substitute("{{ define(x, 'second') }}", &HashMap::new()).unwrap();
	let v = args.substitute("{{ VARS.x }}", &HashMap::new()).unwrap();
	assert_eq!(v, "second");
}

#[test]
fn define_invalid_dynamic_name_errors() {
	// `ARGS.name` would resolve at runtime — `define` requires a static label.
	let args = RunArgs::parse(&[]);
	let err = args
		.substitute("{{ define(ARGS.name, 'value') }}", &HashMap::new())
		.unwrap_err();
	assert!(matches!(err, SubstitutionError::InvalidVarName(_)));
}

#[test]
fn define_invalid_name_dotted_errors() {
	let args = RunArgs::parse(&[]);
	let err = args
		.substitute("{{ define(some.thing, 'x') }}", &HashMap::new())
		.unwrap_err();
	assert!(matches!(err, SubstitutionError::InvalidVarName(_)));
}

#[test]
fn define_does_not_mutate_during_redacted_pass() {
	// Redacted resolution shouldn't overwrite the VARS map — otherwise
	// the next non-redacted substitute would see redacted-pass values.
	let mut env = HashMap::new();
	env.insert("SECRET".to_string(), "real-secret".to_string());
	let args = RunArgs::parse(&[]);
	// Real pass: x = "real-secret"
	let _ = args.substitute("{{ define(x, ENV.SECRET) }}", &env).unwrap();
	// Redacted pass: would resolve ENV.SECRET to "***" if it ran the
	// define mutation. We require it NOT to.
	let _ = args.substitute_redacted("{{ define(x, ENV.SECRET) }}", &env).unwrap();
	let v = args.substitute("{{ VARS.x }}", &env).unwrap();
	assert_eq!(v, "real-secret", "redacted pass must not overwrite VARS");
}

#[test]
fn unknown_function_errors() {
	let args = RunArgs::parse(&[]);
	let err = args.substitute("{{ frobnicate('x') }}", &HashMap::new()).unwrap_err();
	assert!(matches!(err, SubstitutionError::UnknownFunction(ref n) if n == "frobnicate"));
}

#[test]
fn wrong_arity_errors() {
	let args = RunArgs::parse(&["--x=a".into(), "--y=b".into()]);
	let err = args
		.substitute("{{ to_upper(ARGS.x, ARGS.y) }}", &HashMap::new())
		.unwrap_err();
	assert!(matches!(
		err,
		SubstitutionError::FunctionArity { ref name, got: 2, .. } if name == "to_upper"
	));
}

#[test]
fn concat_zero_args_errors() {
	let args = RunArgs::parse(&[]);
	let err = args.substitute("{{ concat() }}", &HashMap::new()).unwrap_err();
	assert!(matches!(err, SubstitutionError::FunctionArity { ref name, .. } if name == "concat"));
}

#[test]
fn unbalanced_parens_errors() {
	let args = RunArgs::parse(&[]);
	let err = args.substitute("{{ to_upper(x }}", &HashMap::new()).unwrap_err();
	assert!(matches!(err, SubstitutionError::UnbalancedParens(_)));
}

#[test]
fn missing_space_after_comma_errors() {
	// `concat('a','b')` — comma not followed by space → arg-list whitespace error.
	let args = RunArgs::parse(&[]);
	let err = args.substitute("{{ concat('a','b') }}", &HashMap::new()).unwrap_err();
	match err {
		SubstitutionError::MalformedSubstitution(_, ref msg) => {
			assert!(msg.contains("space after `,`"), "got: {}", msg);
		}
		other => panic!("expected MalformedSubstitution, got {:?}", other),
	}
}

#[test]
fn space_before_comma_errors() {
	// `concat('a' , 'b')` — space before comma → arg-list whitespace error.
	let args = RunArgs::parse(&[]);
	let err = args.substitute("{{ concat('a' , 'b') }}", &HashMap::new()).unwrap_err();
	assert!(matches!(err, SubstitutionError::MalformedSubstitution(_, _)));
}

#[test]
fn double_space_after_comma_errors() {
	// `concat('a',  'b')` — two spaces after comma → arg-list whitespace error.
	let args = RunArgs::parse(&[]);
	let err = args.substitute("{{ concat('a',  'b') }}", &HashMap::new()).unwrap_err();
	assert!(matches!(err, SubstitutionError::MalformedSubstitution(_, _)));
}

#[test]
fn trailing_comma_errors() {
	let args = RunArgs::parse(&[]);
	let err = args.substitute("{{ concat('a', ) }}", &HashMap::new()).unwrap_err();
	assert!(matches!(err, SubstitutionError::MalformedSubstitution(_, _)));
}

#[test]
fn single_quoted_literal_with_comma_inside() {
	// The splitter treats `'` as a grouping boundary so the comma
	// inside doesn't split args; unwrap strips the quotes.
	let args = RunArgs::parse(&[]);
	let result = args
		.substitute("{{ to_upper('hello, world') }}", &HashMap::new())
		.unwrap();
	assert_eq!(result, "HELLO, WORLD");
}

#[test]
fn single_quoted_literal_with_parens_inside() {
	let args = RunArgs::parse(&[]);
	let result = args
		.substitute("{{ to_upper('foo(bar)baz') }}", &HashMap::new())
		.unwrap();
	assert_eq!(result, "FOO(BAR)BAZ");
}

#[test]
fn double_quoted_with_comma_inside_keeps_quotes() {
	// Splitter still groups on `"..."` (so the comma doesn't split),
	// but the value reaches the function with the quotes intact.
	let args = RunArgs::parse(&[]);
	let result = args
		.substitute("{{ to_upper('\"hello, world\"') }}", &HashMap::new())
		.unwrap();
	assert_eq!(result, "\"HELLO, WORLD\"");
}

#[test]
fn define_value_with_double_quotes_preserves_them() {
	// Direct from the user spec: `define(images, "test")` must store
	// `"test"` (with quotes) as the value of VARS.images.
	let args = RunArgs::parse(&[]);
	let _ = args
		.substitute("{{ define(images, '\"test\"') }}", &HashMap::new())
		.unwrap();
	let v = args.substitute("{{ VARS.images }}", &HashMap::new()).unwrap();
	assert_eq!(v, "\"test\"");
}

#[test]
fn define_value_with_single_quotes_strips_them() {
	// Mirror image: single-quoted value gets stripped.
	let args = RunArgs::parse(&[]);
	let _ = args
		.substitute("{{ define(images, 'raw image, image2') }}", &HashMap::new())
		.unwrap();
	let v = args.substitute("{{ VARS.images }}", &HashMap::new()).unwrap();
	assert_eq!(v, "raw image, image2");
}

#[test]
fn chain_split_skips_question_inside_parens() {
	// ` ? ` inside `to_upper(...)` must not split the chain.
	let mut env = HashMap::new();
	env.insert("HOST".to_string(), "host".to_string());
	let args = RunArgs::parse(&[]);
	let result = args
		.substitute("{{ to_upper(ENV.MISSING ? 'fallback') ? 'other' }}", &env)
		.unwrap();
	// The function call resolves to "FALLBACK" — first chain segment wins.
	assert_eq!(result, "FALLBACK");
}

#[test]
fn vars_propagate_through_clone() {
	// `RunArgs::clone()` shares the Arc — modifying one side mutates
	// the other. This is the same mechanism that propagates `define`
	// across `@target` invocations.
	let parent = RunArgs::parse(&[]);
	let child = parent.clone();
	let _ = parent
		.substitute("{{ define(shared, 'hello') }}", &HashMap::new())
		.unwrap();
	let v = child.substitute("{{ VARS.shared }}", &HashMap::new()).unwrap();
	assert_eq!(v, "hello");
}

#[test]
fn redacted_function_over_env_redacts_input() {
	let mut env = HashMap::new();
	env.insert("SECRET".to_string(), "supersecret".to_string());
	let args = RunArgs::parse(&[]);
	let log = args
		.substitute_redacted("payload={{ to_upper(ENV.SECRET) }}", &env)
		.unwrap();
	// `to_upper("***")` is `"***"`. The real secret is never touched.
	assert_eq!(log, "payload=***");
}

#[test]
fn redacted_var_shows_real_value_known_footgun() {
	// VARS is treated like ARGS — not redacted in logs. Documented
	// footgun: don't put secrets in VARS if you want logs to be safe.
	let mut env = HashMap::new();
	env.insert("PASSWORD".to_string(), "hunter2".to_string());
	let args = RunArgs::parse(&[]);
	let _ = args.substitute("{{ define(pw, ENV.PASSWORD) }}", &env).unwrap();
	let log = args.substitute_redacted("auth={{ VARS.pw }}", &env).unwrap();
	assert_eq!(log, "auth=hunter2");
}

#[test]
fn single_quoted_with_nested_substitution() {
	// `{{ define(cmd, 'docker -f {{ VARS.compose }} pull') }}` —
	// the inner `{{ VARS.compose }}` resolves before the value is
	// stored in VARS.cmd.
	let args = RunArgs::default();
	args.vars
		.lock()
		.unwrap()
		.insert("compose".to_string(), "services/web.yml".to_string());
	let _ = args
		.substitute(
			"{{ define(cmd, 'docker -f {{ VARS.compose }} pull') }}",
			&HashMap::new(),
		)
		.unwrap();
	let v = args.substitute("{{ VARS.cmd }}", &HashMap::new()).unwrap();
	assert_eq!(v, "docker -f services/web.yml pull");
}

#[test]
fn single_quoted_with_multiple_nested_substitutions() {
	let args = RunArgs::parse(&["--first=alice".into(), "--last=brown".into()]);
	let result = args
		.substitute("echo {{ 'Hello {{ ARGS.first }} {{ ARGS.last }}!' }}", &HashMap::new())
		.unwrap();
	assert_eq!(result, "echo Hello alice brown!");
}

#[test]
fn single_quoted_empty_interpolates_to_empty() {
	let args = RunArgs::parse(&[]);
	let result = args.substitute("[{{ ARGS.x ? '' }}]", &HashMap::new()).unwrap();
	assert_eq!(result, "[]");
}

#[test]
fn single_quoted_with_arg_inside_function_arg() {
	// User example: `{{ define(images, 'raw image, image2') }}` — the
	// comma inside the single quotes doesn't split the function args.
	let args = RunArgs::parse(&[]);
	let _ = args
		.substitute("{{ define(images, 'raw image, image2') }}", &HashMap::new())
		.unwrap();
	let v = args.substitute("{{ VARS.images }}", &HashMap::new()).unwrap();
	assert_eq!(v, "raw image, image2");
}

#[test]
fn double_quoted_keeps_quote_chars() {
	// User example: `{{ define(images, "test") }}` stores the 6-char
	// string `"test"` (with the double-quote characters intact).
	let args = RunArgs::parse(&[]);
	let _ = args
		.substitute("{{ define(images, \"test\") }}", &HashMap::new())
		.unwrap();
	let v = args.substitute("{{ VARS.images }}", &HashMap::new()).unwrap();
	assert_eq!(v, "\"test\"");
}

#[test]
fn double_quoted_does_not_interpolate() {
	// Inside `"..."`, `{{ ... }}` stays literal — no recursion.
	let args = RunArgs::parse(&[]);
	args.vars.lock().unwrap().insert("x".to_string(), "value".to_string());
	let result = args
		.substitute("{{ ARGS.y ? \"{{ VARS.x }}\" }}", &HashMap::new())
		.unwrap();
	assert_eq!(result, "\"{{ VARS.x }}\"");
}

#[test]
fn bareword_chain_default_errors() {
	let args = RunArgs::parse(&[]);
	let err = args
		.substitute("{{ ARGS.env ? development }}", &HashMap::new())
		.unwrap_err();
	assert!(matches!(err, SubstitutionError::BarewordLiteralNotAllowed(_)));
}

#[test]
fn check_env_case_duplicates_ok() {
	let mut env = HashMap::new();
	env.insert("NODE_ENV".into(), "test".into());
	env.insert("PATH".into(), "/usr/bin".into());
	assert!(check_env_case_duplicates(&env).is_ok());
}

#[test]
fn check_env_case_duplicates_detects_conflict() {
	let mut env = HashMap::new();
	env.insert("NODE_ENV".into(), "test".into());
	env.insert("node_env".into(), "prod".into());
	let result = check_env_case_duplicates(&env);
	assert!(result.is_err());
	let err = result.unwrap_err().message();
	assert!(err.contains("NODE_ENV") || err.contains("node_env"));
}

#[test]
fn check_env_case_duplicates_same_case_ok() {
	let mut env = HashMap::new();
	env.insert("KEY".into(), "a".into());
	env.insert("KEY".into(), "b".into()); // Overwrites, same key
	assert!(check_env_case_duplicates(&env).is_ok());
}

#[test]
fn check_env_case_duplicates_empty_env_ok() {
	let env: HashMap<String, String> = HashMap::new();
	assert!(check_env_case_duplicates(&env).is_ok());
}

#[test]
fn bareword_function_arg_errors() {
	let args = RunArgs::parse(&[]);
	let err = args.substitute("{{ to_upper(hello) }}", &HashMap::new()).unwrap_err();
	assert!(matches!(err, SubstitutionError::BarewordLiteralNotAllowed(_)));
}

#[test]
fn bareword_flags_branch_errors() {
	let args = RunArgs::parse(&["--debug".into()]);
	let err = args
		.substitute("{{ FLAGS.debug ? on : off }}", &HashMap::new())
		.unwrap_err();
	assert!(matches!(err, SubstitutionError::BarewordLiteralNotAllowed(_)));
}

#[test]
fn quoted_chain_default_works() {
	let args = RunArgs::parse(&[]);
	let result = args
		.substitute("{{ ARGS.env ? 'development' }}", &HashMap::new())
		.unwrap();
	assert_eq!(result, "development");
}

#[test]
fn quoted_flags_ternary_works() {
	let args = RunArgs::parse(&["--ci".into()]);
	let result = args
		.substitute("{{ FLAGS.ci ? '--ci' : '--stdin' }}", &HashMap::new())
		.unwrap();
	assert_eq!(result, "--ci");
}

#[test]
fn quoted_flags_ternary_false() {
	let args = RunArgs::parse(&[]);
	let result = args
		.substitute("{{ FLAGS.ci ? '--ci' : '--stdin' }}", &HashMap::new())
		.unwrap();
	assert_eq!(result, "--stdin");
}

#[test]
fn empty_trailing_question_still_works() {
	// `{{ ARGS.x ? }}` stays valid as the empty-default form.
	let args = RunArgs::parse(&[]);
	let result = args.substitute("[{{ ARGS.x ? }}]", &HashMap::new()).unwrap();
	assert_eq!(result, "[]");
}

#[test]
fn single_quoted_literal_with_nested_subst_using_quoted_arg() {
	// User-reported pattern: a `'...'` literal whose nested `{{ ... }}`
	// uses its own single-quoted arg (`' '` separator). The inner `'`
	// chars must NOT terminate the outer literal.
	let args = RunArgs::parse(&[]);
	args.vars
		.lock()
		.unwrap()
		.insert("part".to_string(), "android-30 google_apis_playstore".to_string());
	args.vars
		.lock()
		.unwrap()
		.insert("arch".to_string(), "x86_64".to_string());
	let result = args
		.substitute(
			"{{ define(image, 'system-images;{{ nth(VARS.part, ' ', '0') }};{{ nth(VARS.part, ' ', '1') }};{{ VARS.arch }}') }}",
			&HashMap::new(),
		)
		.unwrap();
	assert_eq!(result, "");
	let v = args.substitute("{{ VARS.image }}", &HashMap::new()).unwrap();
	assert_eq!(v, "system-images;android-30;google_apis_playstore;x86_64");
}

#[test]
fn single_quoted_literal_interpolates_nested_subst() {
	// Plain interpolation case: nested subst inside `'...'` resolves.
	let args = RunArgs::parse(&[]);
	args.vars.lock().unwrap().insert("v".to_string(), "1.2.3".to_string());
	let result = args
		.substitute("{{ ARGS.tag ? 'v{{ VARS.v }}-stable' }}", &HashMap::new())
		.unwrap();
	assert_eq!(result, "v1.2.3-stable");
}

#[test]
fn function_args_with_nested_subst_using_quotes() {
	// `concat(...)` where each arg is itself a nested subst (function
	// call) that uses its own quoted args. The outer split must treat
	// nested `{{ ... }}` as opaque so the inner `,` and `'` don't
	// disturb arg boundaries.
	let args = RunArgs::parse(&[]);
	args.vars.lock().unwrap().insert("p".to_string(), "a:b:c".to_string());
	let result = args
		.substitute(
			"{{ concat('[', nth(VARS.p, ':', '0'), '|', nth(VARS.p, ':', '2'), ']') }}",
			&HashMap::new(),
		)
		.unwrap();
	assert_eq!(result, "[a|c]");
}

#[test]
fn dsl_condition_with_nested_subst_using_quotes() {
	// DSL detection (`==`) kicks in correctly when one side has a
	// nested subst whose body uses its own quoted args.
	let args = RunArgs::parse(&[]);
	args.vars.lock().unwrap().insert("p".to_string(), "a:b:c".to_string());
	let result = args
		.substitute("{{ nth(VARS.p, ':', '1') == 'b' }}", &HashMap::new())
		.unwrap();
	assert_eq!(result, "true");
}

#[test]
fn dsl_equality_returns_true_or_false() {
	let args = RunArgs::parse(&["--env=production".into()]);
	let result = args
		.substitute("{{ ARGS.env == 'production' }}", &HashMap::new())
		.unwrap();
	assert_eq!(result, "true");

	let args = RunArgs::parse(&["--env=staging".into()]);
	let result = args
		.substitute("{{ ARGS.env == 'production' }}", &HashMap::new())
		.unwrap();
	assert_eq!(result, "false");
}

#[test]
fn dsl_inequality_works() {
	let args = RunArgs::parse(&["--env=staging".into()]);
	let result = args
		.substitute("{{ ARGS.env != 'production' }}", &HashMap::new())
		.unwrap();
	assert_eq!(result, "true");
}

#[test]
fn dsl_logical_and_works() {
	let args = RunArgs::parse(&["--env=prod".into(), "--ci=true".into()]);
	let result = args
		.substitute("{{ ARGS.env == 'prod' && ARGS.ci == 'true' }}", &HashMap::new())
		.unwrap();
	assert_eq!(result, "true");
}

#[test]
fn dsl_logical_or_works() {
	let args = RunArgs::parse(&["--env=prod".into()]);
	let result = args
		.substitute("{{ ARGS.env == 'prod' || ARGS.env == 'staging' }}", &HashMap::new())
		.unwrap();
	assert_eq!(result, "true");
}

#[test]
fn dsl_chained_negations_with_and() {
	// User's example pattern: `ARGS.env != 'development' && ARGS.env != 'production'`.
	let args = RunArgs::parse(&["--env=staging".into()]);
	let result = args
		.substitute(
			"{{ ARGS.env != 'development' && ARGS.env != 'production' }}",
			&HashMap::new(),
		)
		.unwrap();
	assert_eq!(result, "true");

	let args = RunArgs::parse(&["--env=development".into()]);
	let result = args
		.substitute(
			"{{ ARGS.env != 'development' && ARGS.env != 'production' }}",
			&HashMap::new(),
		)
		.unwrap();
	assert_eq!(result, "false");
}

#[test]
fn dsl_with_grouped_parens_works() {
	let args = RunArgs::parse(&["--env=prod".into(), "--deploy=yes".into()]);
	let result = args
		.substitute(
			"{{ (ARGS.env == 'prod' || ARGS.env == 'staging') && ARGS.deploy != 'no' }}",
			&HashMap::new(),
		)
		.unwrap();
	assert_eq!(result, "true");
}

#[test]
fn dsl_with_function_call_value() {
	let args = RunArgs::parse(&["--env=PROD".into()]);
	let result = args
		.substitute("{{ to_lower(ARGS.env) == 'prod' }}", &HashMap::new())
		.unwrap();
	assert_eq!(result, "true");
}

#[test]
fn dsl_inline_in_command_returns_true_string() {
	// User's "my-command --resolve {{ ARGS.env == 'production' }}" example.
	let args = RunArgs::parse(&["--env=production".into()]);
	let result = args
		.substitute("my-command --resolve {{ ARGS.env == 'production' }}", &HashMap::new())
		.unwrap();
	assert_eq!(result, "my-command --resolve true");

	let args = RunArgs::parse(&["--env=staging".into()]);
	let result = args
		.substitute("my-command --resolve {{ ARGS.env == 'production' }}", &HashMap::new())
		.unwrap();
	assert_eq!(result, "my-command --resolve false");
}

#[test]
fn dsl_unary_negation_works() {
	let args = RunArgs::parse(&["--env=prod".into()]);
	let result = args
		.substitute("{{ !(ARGS.env == 'staging') }}", &HashMap::new())
		.unwrap();
	assert_eq!(result, "true");
}

#[test]
fn user_example_with_nested_substitution_in_define() {
	// From the user's example: `{{ define(cmd, 'docker compose -f {{ VARS.compose }} pull') }}`.
	let args = RunArgs::default();
	args.vars
		.lock()
		.unwrap()
		.insert("compose".to_string(), "infra/web/docker-compose.yml".to_string());
	let _ = args
		.substitute(
			"{{ define(cmd, 'docker compose -f {{ VARS.compose }} pull') }}",
			&HashMap::new(),
		)
		.unwrap();
	let v = args.substitute("{{ VARS.cmd }}", &HashMap::new()).unwrap();
	assert_eq!(v, "docker compose -f infra/web/docker-compose.yml pull");
}

#[test]
fn define_name_must_be_bareword_no_quotes() {
	let args = RunArgs::parse(&[]);
	// Single-quoted name → invalid.
	let err = args
		.substitute("{{ define('name', 'value') }}", &HashMap::new())
		.unwrap_err();
	assert!(matches!(err, SubstitutionError::InvalidVarName(_)));
	// Double-quoted name → invalid.
	let err = args
		.substitute("{{ define(\"name\", 'value') }}", &HashMap::new())
		.unwrap_err();
	assert!(matches!(err, SubstitutionError::InvalidVarName(_)));
	// Bareword name → ok.
	let _ = args.substitute("{{ define(name, 'value') }}", &HashMap::new()).unwrap();
	let v = args.substitute("{{ VARS.name }}", &HashMap::new()).unwrap();
	assert_eq!(v, "value");
}

