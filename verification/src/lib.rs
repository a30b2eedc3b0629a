//! Runtime support for Runfile targets: argument parsing, `{{ ... }}`
//! template substitution, env-file parsing, the decisions of a target's
//! walk and the flattening of its steps for `detach`, `sameShell`, parallel
//! blocks and `--dry-run`, and the text helpers used when commands are
//! printed or their output is relayed.

pub mod text;
pub mod scan;
pub mod errors;
pub mod funcs;
pub mod outside;
pub mod builtins;
pub mod model;
pub mod values;
pub mod lex;
pub mod engine;
pub mod args;
pub mod validate;
pub mod envfile;
pub mod extract;
pub mod output;
pub mod control;
pub mod logging;
pub mod laws;
pub mod clock;
pub mod prompt;
pub mod globbing;
pub mod jsonpath;
pub mod uuid;
pub mod calls;
pub mod steps;
pub mod json;
pub mod paths;
pub mod walk;
pub mod flatten;
pub mod extract_steps;
pub mod parallel;

pub use args::{FunctionHost, LoopScope, RunArgs, RunContext, StdinPrompter};
pub use errors::SubstitutionError;
pub use validate::{check_env_case_duplicates, scan_args_usage, validate_args};
pub use envfile::parse_env_file;
