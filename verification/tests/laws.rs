use runfile_executor::envfile::parse_env_file;
use runfile_executor::output::{process_chunk, trim_ascii_whitespace, LineState};
use runfile_executor::{validate_args, LoopScope, RunArgs};
use std::collections::HashMap;

#[test]
fn plain_text_comes_back_unchanged() {
	let mut env = HashMap::new();
	env.insert("HOME".to_string(), "/root".to_string());
	let args = RunArgs::parse(&["a".to_string(), "--x=1".to_string()]);
	let text = "echo $(date) ${HOME} {x} } \\{ done";
	assert_eq!(args.substitute(text, &env).unwrap(), text);
	assert_eq!(args.substitute_redacted(text, &env).unwrap(), text);
}

#[test]
fn url_decode_undoes_url_encode() {
	let args = RunArgs::parse(&[]);
	let out = args
		.substitute("{{ url_decode(url_encode('a b/ü?&=%')) }}", &HashMap::new())
		.unwrap();
	assert_eq!(out, "a b/ü?&=%");
}

#[test]
fn scope_push_get_pop() {
	let mut s = LoopScope::new();
	s.push("x".to_string(), "1".to_string());
	s.push("y".to_string(), "a".to_string());
	s.push("x".to_string(), "2".to_string());
	assert_eq!(s.get("x"), Some("2".to_string()));
	assert_eq!(s.get("y"), Some("a".to_string()));
	s.pop();
	assert_eq!(s.get("x"), Some("1".to_string()));
	s.pop();
	s.pop();
	assert_eq!(s.get("x"), None);
	assert!(s.is_empty());
	s.pop();
	assert!(s.is_empty());
}

#[test]
fn two_reads_equal_one_read() {
	let mut a = LineState::new();
	let mut got = process_chunk(b"ab\r", &mut a);
	got.extend(process_chunk(b"\ncd\n", &mut a));
	let mut b = LineState::new();
	let once = process_chunk(b"ab\r\ncd\n", &mut b);
	assert_eq!(got, once);
	assert_eq!(got, vec![b"ab".to_vec(), b"cd".to_vec()]);
}

#[test]
fn env_keys_are_trimmed_and_non_empty() {
	let pairs = parse_env_file(" K =v\n\texport  J\t= w \n").unwrap();
	assert_eq!(pairs, vec![("K".to_string(), "v".to_string()), ("J".to_string(), "w".to_string())]);
}

#[test]
fn trimming_twice_trims_once() {
	let once = trim_ascii_whitespace(b"\t x y \n");
	assert_eq!(trim_ascii_whitespace(&once), once);
}

#[test]
fn no_arguments_always_accepted() {
	let args = RunArgs::parse(&[]);
	assert!(validate_args(&args, &["echo hi".to_string()]).is_ok());
	assert!(validate_args(&args, &[]).is_ok());
	assert!(validate_args(&args, &["echo {{ ARGS.x }}".to_string()]).is_ok());
}

