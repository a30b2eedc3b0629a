use runfile_executor::envfile::parse_env_file;

#[test]
fn env_error_line_numbers() {
	assert_eq!(parse_env_file("A=1\n\nB\n"), Err((3, "expected KEY=VALUE".to_string())));
	assert_eq!(parse_env_file("A=\"x\ny\"\n=v"), Err((3, "empty key".to_string())));
	assert_eq!(
		parse_env_file("A=1\nB='open\n"),
		Err((2, "unterminated single-quoted value".to_string()))
	);
	assert_eq!(
		parse_env_file("A=\"open\\\""),
		Err((1, "unterminated double-quoted value".to_string()))
	);
}

#[test]
fn env_comment_needs_preceding_space() {
	let p = parse_env_file("A=a#b\nB=a #b\nC=x//y\nD=x //y").unwrap();
	assert_eq!(p[0].1, "a#b");
	assert_eq!(p[1].1, "a");
	assert_eq!(p[2].1, "x//y");
	assert_eq!(p[3].1, "x");
}

#[test]
fn env_crlf_lines() {
	let p = parse_env_file("A=1\r\nB=2\r\n").unwrap();
	assert_eq!(p, vec![("A".to_string(), "1".to_string()), ("B".to_string(), "2".to_string())]);
}

#[test]
fn env_text_after_closing_quote_ignored() {
	let p = parse_env_file("K=\"v\" # note\nJ='w' trailing\nL=3").unwrap();
	assert_eq!(
		p,
		vec![
			("K".to_string(), "v".to_string()),
			("J".to_string(), "w".to_string()),
			("L".to_string(), "3".to_string())
		]
	);
}

#[test]
fn env_export_alone_is_a_key() {
	let p = parse_env_file("export=1").unwrap();
	assert_eq!(p, vec![("export".to_string(), "1".to_string())]);
}
