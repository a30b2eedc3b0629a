use runfile_executor::clock::{civil_parts, now_formatted, now_formatted_at};
use runfile_executor::control::ControlFlowError;
use runfile_executor::globbing::select_glob_matches;
use runfile_executor::jsonpath::{parse_json_path, JsonPathSegment};
use runfile_executor::uuid::uuid_from;
use runfile_executor::SubstitutionError;

fn fmt(f: &str, secs: u64) -> String {
	now_formatted_at(f, secs, secs as u128 * 1000 + 123).unwrap()
}

#[test]
fn civil_parts_known_dates() {
	assert_eq!(civil_parts(0), (1970, 1, 1, 0, 0, 0));
	assert_eq!(civil_parts(1_700_000_000), (2023, 11, 14, 22, 13, 20));
	assert_eq!(civil_parts(951_868_799), (2000, 2, 29, 23, 59, 59));
}

#[test]
fn now_formats() {
	assert_eq!(fmt("iso", 0), "1970-01-01T00:00:00Z");
	assert_eq!(fmt("rfc3339", 1_700_000_000), "2023-11-14T22:13:20Z");
	assert_eq!(fmt("unix", 1_700_000_000), "1700000000");
	assert_eq!(fmt("unix-millis", 1_700_000_000), "1700000000123");
	assert_eq!(fmt("date", 951_782_400), "2000-02-29");
	assert_eq!(fmt("time", 1_700_000_000), "22:13:20");
	assert_eq!(fmt("year", 0), "1970");
	assert_eq!(fmt("month", 0), "01");
	assert_eq!(fmt("day", 1_700_000_000), "14");
	assert_eq!(fmt("hour", 0), "00");
	assert_eq!(fmt("minute", 1_700_000_000), "13");
	assert_eq!(fmt("second", 1_700_000_000), "20");
}

#[test]
fn now_unknown_format_errors() {
	match now_formatted_at("bogus", 0, 0) {
		Err(SubstitutionError::InvalidTimeFormat(f)) => assert_eq!(f, "bogus"),
		other => panic!("unexpected {other:?}"),
	}
	assert!(now_formatted("bogus").is_err());
	assert!(now_formatted("unix").unwrap().parse::<u64>().unwrap() > 1_600_000_000);
}

#[test]
fn json_paths() {
	let p = parse_json_path("users.0.name").unwrap();
	assert!(matches!(&p[..], [JsonPathSegment::Key(a), JsonPathSegment::Index(0), JsonPathSegment::Key(b)] if a == "users" && b == "name"));
	assert!(parse_json_path("").unwrap().is_empty());
	assert!(matches!(parse_json_path("+5").unwrap()[..], [JsonPathSegment::Index(5)]));
	assert!(matches!(&parse_json_path(" 5").unwrap()[..], [JsonPathSegment::Key(k)] if k == " 5"));
	assert!(matches!(&parse_json_path("-1").unwrap()[..], [JsonPathSegment::Key(k)] if k == "-1"));
	assert!(matches!(&parse_json_path("99999999999999999999999").unwrap()[..], [JsonPathSegment::Key(_)]));
	match parse_json_path("a..b") {
		Err(SubstitutionError::InvalidJsonPath(p, m)) => {
			assert_eq!(p, "a..b");
			assert_eq!(m, "empty segment (consecutive `.` or leading/trailing `.`)");
		}
		other => panic!("unexpected {other:?}"),
	}
	assert!(parse_json_path(".a").is_err());
}

#[test]
fn uuid_layout_and_values() {
	assert_eq!(uuid_from(0, 0, 0), "afcd1d7b-39a8-40e2-b465-b9a16a9e786e");
	assert_eq!(uuid_from(123_456_789, 42, 7), "e951eb21-c2b8-472c-adcf-74cf073cb231");
	let u = uuid_from(1, 2, 3);
	assert_eq!(u.len(), 36);
	assert_eq!(&u[14..15], "4");
	assert!(matches!(&u[19..20], "8" | "9" | "a" | "b"));
}

#[test]
fn glob_selection_sorted() {
	let files: Vec<String> = ["b.txt", "a.txt", "c.md", "dir/x.txt"].iter().map(|s| s.to_string()).collect();
	assert_eq!(select_glob_matches("*.txt", &files).unwrap(), vec!["a.txt", "b.txt", "dir/x.txt"]);
	assert_eq!(select_glob_matches("**/*.md", &files).unwrap(), vec!["c.md"]);
	assert!(select_glob_matches("*.rs", &files).unwrap().is_empty());
	match select_glob_matches("a[", &files) {
		Err(ControlFlowError::BadGlob(p, _)) => assert_eq!(p, "a["),
		other => panic!("unexpected {other:?}"),
	}
}
