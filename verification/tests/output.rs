use runfile_executor::logging::{console_mode_update, line_prefixing_enabled, StepCounter};
use runfile_executor::output::{
	format_parallel_prefix, is_line_boundary_csi, process_chunk, render_line, shell_prefix_label,
	split_at_cursor_escapes, strip_cursor_escapes, trim_ascii_whitespace, LineState,
};

fn lines(v: &[Vec<u8>]) -> Vec<String> {
	v.iter().map(|l| String::from_utf8(l.clone()).unwrap()).collect()
}

#[test]
fn chunk_splits_on_newline_and_carriage_return() {
	let mut st = LineState::new();
	let out = process_chunk(b"a\nb\r\nc", &mut st);
	assert_eq!(lines(&out), vec!["a", "b"]);
	assert_eq!(st.line, b"c".to_vec());
	assert!(!st.prev_cr);
}

#[test]
fn chunk_crlf_split_across_reads_counts_once() {
	let mut st = LineState::new();
	let first = process_chunk(b"x\r", &mut st);
	assert_eq!(lines(&first), vec!["x"]);
	assert!(st.prev_cr);
	let second = process_chunk(b"\ny", &mut st);
	assert!(second.is_empty());
	assert_eq!(st.line, b"y".to_vec());
}

#[test]
fn chunk_runs_of_carriage_returns_emit_no_blank_lines() {
	let mut st = LineState::new();
	let out = process_chunk(b"\r\r\rabc\r", &mut st);
	assert_eq!(lines(&out), vec!["abc"]);
	assert!(st.line.is_empty());
}

#[test]
fn chunk_bare_newline_emits_empty_line() {
	let mut st = LineState::new();
	let out = process_chunk(b"\n\n", &mut st);
	assert_eq!(lines(&out), vec!["", ""]);
}

#[test]
fn chunks_in_two_reads_match_one_read() {
	let whole = b"ab\r\ncd\rxy\n\nz";
	for cut in 0..=whole.len() {
		let mut a = LineState::new();
		let mut got = process_chunk(&whole[..cut], &mut a);
		got.extend(process_chunk(&whole[cut..], &mut a));
		let mut b = LineState::new();
		let once = process_chunk(whole, &mut b);
		assert_eq!(got, once, "cut at {cut}");
		assert_eq!(a.line, b.line);
		assert_eq!(a.prev_cr, b.prev_cr);
	}
}

#[test]
fn split_at_cursor_position_keeps_colour_inline() {
	let segs = split_at_cursor_escapes(b"row1\x1b[2;1Hrow2\x1b[31mred");
	assert_eq!(segs, vec![b"row1".to_vec(), b"row2\x1b[31mred".to_vec()]);
}

#[test]
fn split_truncated_sequence_stays_in_last_piece() {
	let segs = split_at_cursor_escapes(b"ab\x1b[12");
	assert_eq!(segs, vec![b"ab\x1b[12".to_vec()]);
}

#[test]
fn split_erase_line_at_start_gives_empty_first_piece() {
	let segs = split_at_cursor_escapes(b"\x1b[Kdone");
	assert_eq!(segs, vec![b"".to_vec(), b"done".to_vec()]);
}

#[test]
fn boundary_finals() {
	for b in [b'A', b'B', b'C', b'D', b'E', b'F', b'G', b'H', b'J', b'K', b'S', b'T', b'd', b'f'] {
		assert!(is_line_boundary_csi(b));
	}
	for b in [b'm', b'h', b'l', b'I', b'L', b'e'] {
		assert!(!is_line_boundary_csi(b));
	}
}

#[test]
fn strip_keeps_colour_drops_erase() {
	let out = strip_cursor_escapes(b"\x1b[31mred\x1b[0m\x1b[2K done");
	assert_eq!(out, b"\x1b[31mred\x1b[0m done".to_vec());
}

#[test]
fn strip_drops_osc_in_both_forms() {
	assert_eq!(strip_cursor_escapes(b"a\x1b]0;title\x07b"), b"ab".to_vec());
	assert_eq!(strip_cursor_escapes(b"a\x1b]0;t\x1b\\b"), b"ab".to_vec());
}

#[test]
fn strip_drops_two_byte_escape_and_truncated_sequences() {
	assert_eq!(strip_cursor_escapes(b"a\x1bMb"), b"ab".to_vec());
	assert_eq!(strip_cursor_escapes(b"a\x1b[12"), b"a".to_vec());
	assert_eq!(strip_cursor_escapes(b"a\x1b]title"), b"a".to_vec());
	assert_eq!(strip_cursor_escapes(b"a\x1b"), b"a\x1b".to_vec());
}

#[test]
fn strip_twice_is_strip_once() {
	let inputs: [&[u8]; 4] = [b"\x1b[1m\x1b[2Kx\x1b[0m", b"\x1b\x1b[31mz", b"p\x1b]x\x07q\x1b[Hr", b"\x1b[\x1bm!"];
	for s in inputs {
		let once = strip_cursor_escapes(s);
		assert_eq!(strip_cursor_escapes(&once), once);
	}
}

#[test]
fn trim_ascii_both_ends() {
	assert_eq!(trim_ascii_whitespace(b"  \t hi there \r\n"), b"hi there".to_vec());
	assert_eq!(trim_ascii_whitespace(b" \x0c\t "), Vec::<u8>::new());
	assert_eq!(trim_ascii_whitespace(b"\x0bv\x0b"), b"\x0bv\x0b".to_vec());
}

#[test]
fn render_line_one_prefixed_line_per_row() {
	let out = render_line("[p] ", b"  one\x1b[1A  two \x1b[K   ", false);
	assert_eq!(lines(&out), vec!["[p] one\n", "[p] two\n"]);
	let crlf = render_line("[p] ", b"one", true);
	assert_eq!(lines(&crlf), vec!["[p] one\r\n"]);
}

#[test]
fn render_line_whitespace_only_gives_nothing() {
	assert!(render_line("[p] ", b"  \x1b[2K \t", false).is_empty());
}

#[test]
fn parallel_prefix_colours_cycle() {
	assert_eq!(format_parallel_prefix(1, "build", false), "\x1b[36m[build]\x1b[0m ");
	assert_eq!(format_parallel_prefix(2, "build", false), "\x1b[33m[build]\x1b[0m ");
	assert_eq!(format_parallel_prefix(6, "b", false), "\x1b[31m[b]\x1b[0m ");
	assert_eq!(format_parallel_prefix(7, "b", false), "\x1b[36m[b]\x1b[0m ");
	assert_eq!(format_parallel_prefix(0, "b", false), "\x1b[36m[b]\x1b[0m ");
	assert_eq!(format_parallel_prefix(3, "build", true), "[build] ");
}

#[test]
fn prefix_label_first_nonblank_line_twelve_chars() {
	assert_eq!(shell_prefix_label("\n  \n   cargo build --release  \nnext"), "cargo build ");
	assert_eq!(shell_prefix_label("make"), "make");
	assert_eq!(shell_prefix_label(""), "");
	assert_eq!(shell_prefix_label(" \n\t\n"), "");
	assert_eq!(shell_prefix_label("héllo wörld, bye"), "héllo wörld,");
}

#[test]
fn line_prefix_opt_out() {
	assert!(line_prefixing_enabled(None));
	assert!(!line_prefixing_enabled(Some("1")));
	assert!(!line_prefixing_enabled(Some("TRUE")));
	assert!(!line_prefixing_enabled(Some("true")));
	assert!(line_prefixing_enabled(Some("yes")));
	assert!(line_prefixing_enabled(Some("0")));
	assert!(line_prefixing_enabled(Some("")));
}

#[test]
fn console_mode_sets_both_bits_once() {
	assert_eq!(console_mode_update(0), Some(5));
	assert_eq!(console_mode_update(2), Some(7));
	assert_eq!(console_mode_update(1), Some(5));
	assert_eq!(console_mode_update(5), None);
	assert_eq!(console_mode_update(0xF7), None);
	assert_eq!(console_mode_update(0xF0), Some(0xF5));
}

#[test]
fn step_counter_counts_and_shares() {
	let c = StepCounter::new(3);
	assert_eq!(c.next_step(), (1, 3));
	assert_eq!(c.next_step(), (2, 3));
	c.add_to_total(2);
	assert_eq!(c.total(), 5);
	let d = c.clone();
	assert_eq!(d.next_step(), (3, 5));
	d.subtract_from_total(1);
	assert_eq!(c.total(), 4);
	c.subtract_from_total(10);
	assert_eq!(d.total(), 0);
}
