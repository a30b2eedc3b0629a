use runfile_executor::extract::{format_extracted_commands, ExtractedCommand, ShellKind};

#[test]
fn extract_format_powershell() {

	let commands = vec![ExtractedCommand {
		command: "npm run build".to_string(),
		env_vars: vec![
			("ENV".to_string(), "test".to_string()),
			("NODE_ENV".to_string(), "production".to_string()),
		],
	}];

	let lines = format_extracted_commands(&commands, &ShellKind::PowerShell);
	assert_eq!(lines[0], "$env:ENV='test'; $env:NODE_ENV='production'; npm run build");
}

#[test]
fn extract_format_cmd() {

	let commands = vec![ExtractedCommand {
		command: "npm run build".to_string(),
		env_vars: vec![
			("ENV".to_string(), "test".to_string()),
			("NODE_ENV".to_string(), "production".to_string()),
		],
	}];

	let lines = format_extracted_commands(&commands, &ShellKind::Cmd);
	assert_eq!(
		lines[0],
		"set \"ENV=test\" && set \"NODE_ENV=production\" && npm run build"
	);
}

#[test]
fn extract_format_fish() {

	let commands = vec![ExtractedCommand {
		command: "npm run build".to_string(),
		env_vars: vec![("ENV".to_string(), "test".to_string())],
	}];

	let lines = format_extracted_commands(&commands, &ShellKind::Fish);
	assert_eq!(lines[0], "env ENV=test npm run build");
}

#[test]
fn extract_format_no_env_vars() {

	let commands = vec![ExtractedCommand {
		command: "echo hello".to_string(),
		env_vars: vec![],
	}];

	let lines = format_extracted_commands(&commands, &ShellKind::Bash);
	assert_eq!(lines[0], "echo hello");
}

#[test]
fn extract_env_value_with_spaces_quoted_bash() {

	let commands = vec![ExtractedCommand {
		command: "echo hello".to_string(),
		env_vars: vec![("MSG".to_string(), "hello world".to_string())],
	}];

	let lines = format_extracted_commands(&commands, &ShellKind::Bash);
	assert_eq!(lines[0], "MSG='hello world' echo hello");
}

#[test]
fn extract_format_bash_value_with_single_quotes() {

	let commands = vec![ExtractedCommand {
		command: "echo test".to_string(),
		env_vars: vec![("MSG".to_string(), "it's alive".to_string())],
	}];

	let lines = format_extracted_commands(&commands, &ShellKind::Bash);
	// Single quote inside value should be escaped with '\'' pattern
	assert!(lines[0].contains("it'\\''s alive"), "got: {}", lines[0]);
}

#[test]
fn extract_format_bash_value_with_dollar() {

	let commands = vec![ExtractedCommand {
		command: "echo test".to_string(),
		env_vars: vec![("PRICE".to_string(), "$100".to_string())],
	}];

	let lines = format_extracted_commands(&commands, &ShellKind::Bash);
	// Dollar sign needs quoting
	assert!(lines[0].contains("'$100'"), "got: {}", lines[0]);
}

#[test]
fn extract_format_bash_empty_value_quoted() {

	let commands = vec![ExtractedCommand {
		command: "echo test".to_string(),
		env_vars: vec![("EMPTY".to_string(), "".to_string())],
	}];

	let lines = format_extracted_commands(&commands, &ShellKind::Bash);
	// Empty value needs quoting
	assert!(lines[0].contains("EMPTY=''"), "got: {}", lines[0]);
}

#[test]
fn extract_format_powershell_value_with_double_quotes() {

	let commands = vec![ExtractedCommand {
		command: "echo test".to_string(),
		env_vars: vec![("MSG".to_string(), "say \"hello\"".to_string())],
	}];

	let lines = format_extracted_commands(&commands, &ShellKind::PowerShell);
	// Single-quoted PowerShell strings are verbatim — double quotes need no escaping
	assert_eq!(lines[0], "$env:MSG='say \"hello\"'; echo test");
}

#[test]
fn extract_format_powershell_empty_value() {

	let commands = vec![ExtractedCommand {
		command: "echo test".to_string(),
		env_vars: vec![("EMPTY".to_string(), "".to_string())],
	}];

	let lines = format_extracted_commands(&commands, &ShellKind::PowerShell);
	assert!(lines[0].contains("$env:EMPTY=''"), "got: {}", lines[0]);
}

#[test]
fn extract_format_fish_value_with_single_quotes() {

	let commands = vec![ExtractedCommand {
		command: "echo test".to_string(),
		env_vars: vec![("MSG".to_string(), "it's fish".to_string())],
	}];

	let lines = format_extracted_commands(&commands, &ShellKind::Fish);
	assert!(lines[0].contains("env"), "Fish should use env prefix");
	// Fish quoting: close quote, escaped quote, reopen: 'it'\''s fish'
	assert!(
		lines[0].contains("'\\''"),
		"Fish should escape single quotes with close-escape-reopen, got: {}",
		lines[0]
	);
}

#[test]
fn extract_format_cmd_multiple_env_vars() {

	let commands = vec![ExtractedCommand {
		command: "echo test".to_string(),
		env_vars: vec![
			("A".to_string(), "1".to_string()),
			("B".to_string(), "2".to_string()),
			("C".to_string(), "3".to_string()),
		],
	}];

	let lines = format_extracted_commands(&commands, &ShellKind::Cmd);
	assert_eq!(lines[0], "set \"A=1\" && set \"B=2\" && set \"C=3\" && echo test");
}

#[test]
fn extract_format_bash_simple_value_not_quoted() {

	let commands = vec![ExtractedCommand {
		command: "echo test".to_string(),
		env_vars: vec![("KEY".to_string(), "simple".to_string())],
	}];

	let lines = format_extracted_commands(&commands, &ShellKind::Bash);
	// Simple alphanumeric value should not be quoted
	assert_eq!(lines[0], "KEY=simple echo test");
}

#[test]
fn extract_format_bash_value_with_special_chars() {

	let commands = vec![ExtractedCommand {
		command: "echo test".to_string(),
		env_vars: vec![("CMD".to_string(), "echo {{ whoami }} | cat".to_string())],
	}];

	let lines = format_extracted_commands(&commands, &ShellKind::Bash);
	// Value with $, (, |, ) should all trigger quoting
	assert!(
		lines[0].starts_with("CMD='"),
		"Special chars should trigger quoting, got: {}",
		lines[0]
	);
}

#[test]
fn extract_format_bash_value_with_tab_and_newline() {

	let commands = vec![ExtractedCommand {
		command: "echo test".to_string(),
		env_vars: vec![("TAB".to_string(), "a\tb".to_string())],
	}];

	let lines = format_extracted_commands(&commands, &ShellKind::Bash);
	assert!(
		lines[0].contains("'a\tb'"),
		"Tab should trigger quoting, got: {}",
		lines[0]
	);
}

#[test]
fn cmd_env_value_with_ampersand_is_quoted() {

	let commands = vec![ExtractedCommand {
		command: "echo test".to_string(),
		env_vars: vec![("VAR".to_string(), "foo & whoami".to_string())],
	}];

	let lines = format_extracted_commands(&commands, &ShellKind::Cmd);
	// The & must be inside quotes so cmd.exe doesn't interpret it as a command separator
	assert_eq!(lines[0], "set \"VAR=foo & whoami\" && echo test");
}

#[test]
fn cmd_env_value_with_pipe_is_quoted() {

	let commands = vec![ExtractedCommand {
		command: "echo test".to_string(),
		env_vars: vec![("VAR".to_string(), "foo | del *".to_string())],
	}];

	let lines = format_extracted_commands(&commands, &ShellKind::Cmd);
	assert_eq!(lines[0], "set \"VAR=foo | del *\" && echo test");
}

#[test]
fn cmd_env_value_with_angle_brackets_is_quoted() {

	let commands = vec![ExtractedCommand {
		command: "echo test".to_string(),
		env_vars: vec![("VAR".to_string(), "a > b < c".to_string())],
	}];

	let lines = format_extracted_commands(&commands, &ShellKind::Cmd);
	assert_eq!(lines[0], "set \"VAR=a > b < c\" && echo test");
}

#[test]
fn cmd_env_value_with_caret_is_quoted() {

	let commands = vec![ExtractedCommand {
		command: "echo test".to_string(),
		env_vars: vec![("VAR".to_string(), "foo^bar".to_string())],
	}];

	let lines = format_extracted_commands(&commands, &ShellKind::Cmd);
	assert_eq!(lines[0], "set \"VAR=foo^bar\" && echo test");
}

#[test]
fn cmd_env_value_with_percent_is_quoted() {

	let commands = vec![ExtractedCommand {
		command: "echo test".to_string(),
		env_vars: vec![("VAR".to_string(), "%PATH%".to_string())],
	}];

	let lines = format_extracted_commands(&commands, &ShellKind::Cmd);
	assert_eq!(lines[0], "set \"VAR=%PATH%\" && echo test");
}

#[test]
fn powershell_env_value_with_dollar_subexpression_not_expanded() {

	// In double quotes, PowerShell would expand {{ whoami }}. Single quotes prevent this.
	let commands = vec![ExtractedCommand {
		command: "echo test".to_string(),
		env_vars: vec![("VAR".to_string(), "{{ whoami }}".to_string())],
	}];

	let lines = format_extracted_commands(&commands, &ShellKind::PowerShell);
	// Must use single quotes so {{ whoami }} is literal
	assert_eq!(lines[0], "$env:VAR='{{ whoami }}'; echo test");
}

#[test]
fn powershell_env_value_with_backtick_is_literal() {

	let commands = vec![ExtractedCommand {
		command: "echo test".to_string(),
		env_vars: vec![("VAR".to_string(), "foo`nbar".to_string())],
	}];

	let lines = format_extracted_commands(&commands, &ShellKind::PowerShell);
	// Single quotes make backtick literal (no escape sequence interpretation)
	assert_eq!(lines[0], "$env:VAR='foo`nbar'; echo test");
}

#[test]
fn powershell_env_value_with_single_quote_is_escaped() {

	let commands = vec![ExtractedCommand {
		command: "echo test".to_string(),
		env_vars: vec![("VAR".to_string(), "it's a test".to_string())],
	}];

	let lines = format_extracted_commands(&commands, &ShellKind::PowerShell);
	// PowerShell single-quote escaping: ' becomes ''
	assert_eq!(lines[0], "$env:VAR='it''s a test'; echo test");
}

#[test]
fn powershell_env_value_with_double_quotes_is_literal() {

	let commands = vec![ExtractedCommand {
		command: "echo test".to_string(),
		env_vars: vec![("VAR".to_string(), "say \"hello\"".to_string())],
	}];

	let lines = format_extracted_commands(&commands, &ShellKind::PowerShell);
	// Double quotes inside single quotes are literal, no escaping needed
	assert_eq!(lines[0], "$env:VAR='say \"hello\"'; echo test");
}

#[test]
fn powershell_env_value_empty() {

	let commands = vec![ExtractedCommand {
		command: "echo test".to_string(),
		env_vars: vec![("VAR".to_string(), "".to_string())],
	}];

	let lines = format_extracted_commands(&commands, &ShellKind::PowerShell);
	assert_eq!(lines[0], "$env:VAR=''; echo test");
}

#[test]
fn powershell_env_value_with_variable_reference_not_expanded() {

	let commands = vec![ExtractedCommand {
		command: "echo test".to_string(),
		env_vars: vec![("VAR".to_string(), "$env:SECRET".to_string())],
	}];

	let lines = format_extracted_commands(&commands, &ShellKind::PowerShell);
	// $env:SECRET inside single quotes is literal
	assert_eq!(lines[0], "$env:VAR='$env:SECRET'; echo test");
}

#[test]
fn powershell_env_value_with_semicolon_does_not_break_out() {

	let commands = vec![ExtractedCommand {
		command: "echo test".to_string(),
		env_vars: vec![("VAR".to_string(), "a'; Remove-Item * -Recurse; echo '".to_string())],
	}];

	let lines = format_extracted_commands(&commands, &ShellKind::PowerShell);
	// The single quote in the value must be doubled, not allow breakout
	assert_eq!(lines[0], "$env:VAR='a''; Remove-Item * -Recurse; echo '''; echo test");
}

#[test]
fn cmd_env_value_simple_no_special_chars() {

	// Even simple values get quoted in cmd.exe (defense in depth)
	let commands = vec![ExtractedCommand {
		command: "echo test".to_string(),
		env_vars: vec![("VAR".to_string(), "simple".to_string())],
	}];

	let lines = format_extracted_commands(&commands, &ShellKind::Cmd);
	assert_eq!(lines[0], "set \"VAR=simple\" && echo test");
}

#[test]
fn cmd_env_value_with_multiple_dangerous_chars() {

	let commands = vec![ExtractedCommand {
		command: "echo test".to_string(),
		env_vars: vec![("VAR".to_string(), "a & b | c > d < e ^ f".to_string())],
	}];

	let lines = format_extracted_commands(&commands, &ShellKind::Cmd);
	assert_eq!(lines[0], "set \"VAR=a & b | c > d < e ^ f\" && echo test");
}

#[test]
fn fish_env_value_with_single_quote_uses_close_escape_reopen() {

	let commands = vec![ExtractedCommand {
		command: "echo test".to_string(),
		env_vars: vec![("MSG".to_string(), "it's alive".to_string())],
	}];

	let lines = format_extracted_commands(&commands, &ShellKind::Fish);
	// Expected: env MSG='it'\''s alive' echo test
	assert_eq!(lines[0], "env MSG='it'\\''s alive' echo test");
}

#[test]
fn fish_env_value_with_multiple_single_quotes() {

	let commands = vec![ExtractedCommand {
		command: "echo test".to_string(),
		env_vars: vec![("MSG".to_string(), "it's a 'test'".to_string())],
	}];

	let lines = format_extracted_commands(&commands, &ShellKind::Fish);
	assert_eq!(lines[0], "env MSG='it'\\''s a '\\''test'\\''' echo test");
}

#[test]
fn fish_env_value_with_dollar_sign_is_quoted() {

	let commands = vec![ExtractedCommand {
		command: "echo test".to_string(),
		env_vars: vec![("VAR".to_string(), "$HOME".to_string())],
	}];

	let lines = format_extracted_commands(&commands, &ShellKind::Fish);
	// $ triggers quoting, value is wrapped in single quotes
	assert_eq!(lines[0], "env VAR='$HOME' echo test");
}

#[test]
fn fish_env_value_with_spaces() {

	let commands = vec![ExtractedCommand {
		command: "echo test".to_string(),
		env_vars: vec![("VAR".to_string(), "hello world".to_string())],
	}];

	let lines = format_extracted_commands(&commands, &ShellKind::Fish);
	assert_eq!(lines[0], "env VAR='hello world' echo test");
}

#[test]
fn fish_env_value_with_backslash() {

	let commands = vec![ExtractedCommand {
		command: "echo test".to_string(),
		env_vars: vec![("PATH".to_string(), "C:\\Users\\test".to_string())],
	}];

	let lines = format_extracted_commands(&commands, &ShellKind::Fish);
	// Backslash triggers quoting; in single quotes it's literal in Fish
	assert_eq!(lines[0], "env PATH='C:\\Users\\test' echo test");
}

#[test]
fn fish_env_value_empty_string() {

	let commands = vec![ExtractedCommand {
		command: "echo test".to_string(),
		env_vars: vec![("VAR".to_string(), "".to_string())],
	}];

	let lines = format_extracted_commands(&commands, &ShellKind::Fish);
	// Empty value needs quoting
	assert_eq!(lines[0], "env VAR='' echo test");
}

#[test]
fn fish_env_value_simple_no_quoting() {

	let commands = vec![ExtractedCommand {
		command: "echo test".to_string(),
		env_vars: vec![("VAR".to_string(), "simple".to_string())],
	}];

	let lines = format_extracted_commands(&commands, &ShellKind::Fish);
	// Simple alphanumeric value should NOT be quoted
	assert_eq!(lines[0], "env VAR=simple echo test");
}

#[test]
fn fish_env_value_with_semicolon() {

	let commands = vec![ExtractedCommand {
		command: "echo test".to_string(),
		env_vars: vec![("VAR".to_string(), "a;b".to_string())],
	}];

	let lines = format_extracted_commands(&commands, &ShellKind::Fish);
	assert_eq!(lines[0], "env VAR='a;b' echo test");
}
