//! The error type of argument validation and template substitution.

use vstd::prelude::*;
use crate::text::{dec, dec_exec, push_str, push_all, string_of};

verus! {

/// Why a substitution, or the validation of CLI arguments, failed.
#[derive(Debug)]
pub enum SubstitutionError {
    MissingArg(String),
    MissingEnv(String),
    MissingVar(String),
    MissingLoopVar(String),
    UnknownRunKey(String),
    DuplicateEnvCasing(String, String),
    UnexpectedArgs(String),
    UnknownNamedArg(String),
    FunctionArity { name: String, expected: String, got: usize },
    UnknownFunction(String),
    FunctionUnavailable(String),
    InvalidVarName(String),
    UnbalancedParens(String),
    MalformedSubstitution(String, String),
    BarewordLiteralNotAllowed(String),
    DslError(String),
    DslValueNotBoolean { value: String },
    InvalidBase64(String),
    NonUtf8Decoded,
    InvalidNumber { name: String, message: String },
    InvalidNumeric { name: String, message: String },
    InvalidRegex { name: String, message: String },
    OneOfNoMatch { value: String, options: String },
    TryFailed { source: Box<SubstitutionError> },
    DivideByZero,
    ReadFileError(String, String),
    WriteFileError(String, String),
    InvalidJson(String, String),
    InvalidJsonPath(String, String),
    CaptureFailed { command: String, message: String },
    InvalidTimeFormat(String),
    TempFileError(String),
    TempDirError(String),
    InvalidUrlEncoding(String),
    UserError(String),
    TooManyQueries,
}

/// The mathematical view of a [`SubstitutionError`]: the same variants, with
/// text as character sequences.
pub enum ErrV {
    MissingArg(Seq<char>),
    MissingEnv(Seq<char>),
    MissingVar(Seq<char>),
    MissingLoopVar(Seq<char>),
    UnknownRunKey(Seq<char>),
    DuplicateEnvCasing(Seq<char>, Seq<char>),
    UnexpectedArgs(Seq<char>),
    UnknownNamedArg(Seq<char>),
    FunctionArity(Seq<char>, Seq<char>, nat),
    UnknownFunction(Seq<char>),
    FunctionUnavailable(Seq<char>),
    InvalidVarName(Seq<char>),
    UnbalancedParens(Seq<char>),
    MalformedSubstitution(Seq<char>, Seq<char>),
    BarewordLiteralNotAllowed(Seq<char>),
    DslError(Seq<char>),
    DslValueNotBoolean(Seq<char>),
    InvalidBase64(Seq<char>),
    NonUtf8Decoded,
    InvalidNumber(Seq<char>, Seq<char>),
    InvalidNumeric(Seq<char>, Seq<char>),
    InvalidRegex(Seq<char>, Seq<char>),
    OneOfNoMatch(Seq<char>, Seq<char>),
    TryFailed(Box<ErrV>),
    DivideByZero,
    ReadFileError(Seq<char>, Seq<char>),
    WriteFileError(Seq<char>, Seq<char>),
    InvalidJson(Seq<char>, Seq<char>),
    InvalidJsonPath(Seq<char>, Seq<char>),
    CaptureFailed(Seq<char>, Seq<char>),
    InvalidTimeFormat(Seq<char>),
    TempFileError(Seq<char>),
    TempDirError(Seq<char>),
    InvalidUrlEncoding(Seq<char>),
    UserError(Seq<char>),
    TooManyQueries,
}

/// The view of an error.
pub open spec fn err_view(e: SubstitutionError) -> ErrV
    decreases e,
{
        match e {
            SubstitutionError::MissingArg(a) => ErrV::MissingArg(a@),
            SubstitutionError::MissingEnv(a) => ErrV::MissingEnv(a@),
            SubstitutionError::MissingVar(a) => ErrV::MissingVar(a@),
            SubstitutionError::MissingLoopVar(a) => ErrV::MissingLoopVar(a@),
            SubstitutionError::UnknownRunKey(a) => ErrV::UnknownRunKey(a@),
            SubstitutionError::DuplicateEnvCasing(a, b) => ErrV::DuplicateEnvCasing(a@, b@),
            SubstitutionError::UnexpectedArgs(a) => ErrV::UnexpectedArgs(a@),
            SubstitutionError::UnknownNamedArg(a) => ErrV::UnknownNamedArg(a@),
            SubstitutionError::FunctionArity { name, expected, got } => ErrV::FunctionArity(
                name@,
                expected@,
                got as nat,
            ),
            SubstitutionError::UnknownFunction(a) => ErrV::UnknownFunction(a@),
            SubstitutionError::FunctionUnavailable(a) => ErrV::FunctionUnavailable(a@),
            SubstitutionError::InvalidVarName(a) => ErrV::InvalidVarName(a@),
            SubstitutionError::UnbalancedParens(a) => ErrV::UnbalancedParens(a@),
            SubstitutionError::MalformedSubstitution(a, b) => ErrV::MalformedSubstitution(a@, b@),
            SubstitutionError::BarewordLiteralNotAllowed(a) => ErrV::BarewordLiteralNotAllowed(a@),
            SubstitutionError::DslError(a) => ErrV::DslError(a@),
            SubstitutionError::DslValueNotBoolean { value } => ErrV::DslValueNotBoolean(value@),
            SubstitutionError::InvalidBase64(a) => ErrV::InvalidBase64(a@),
            SubstitutionError::NonUtf8Decoded => ErrV::NonUtf8Decoded,
            SubstitutionError::InvalidNumber { name, message } => ErrV::InvalidNumber(name@, message@),
            SubstitutionError::InvalidNumeric { name, message } => ErrV::InvalidNumeric(name@, message@),
            SubstitutionError::InvalidRegex { name, message } => ErrV::InvalidRegex(name@, message@),
            SubstitutionError::OneOfNoMatch { value, options } => ErrV::OneOfNoMatch(value@, options@),
            SubstitutionError::TryFailed { source } => ErrV::TryFailed(Box::new(err_view(*source))),
            SubstitutionError::DivideByZero => ErrV::DivideByZero,
            SubstitutionError::ReadFileError(a, b) => ErrV::ReadFileError(a@, b@),
            SubstitutionError::WriteFileError(a, b) => ErrV::WriteFileError(a@, b@),
            SubstitutionError::InvalidJson(a, b) => ErrV::InvalidJson(a@, b@),
            SubstitutionError::InvalidJsonPath(a, b) => ErrV::InvalidJsonPath(a@, b@),
            SubstitutionError::CaptureFailed { command, message } => ErrV::CaptureFailed(command@, message@),
            SubstitutionError::InvalidTimeFormat(a) => ErrV::InvalidTimeFormat(a@),
            SubstitutionError::TempFileError(a) => ErrV::TempFileError(a@),
            SubstitutionError::TempDirError(a) => ErrV::TempDirError(a@),
            SubstitutionError::InvalidUrlEncoding(a) => ErrV::InvalidUrlEncoding(a@),
            SubstitutionError::UserError(a) => ErrV::UserError(a@),
            SubstitutionError::TooManyQueries => ErrV::TooManyQueries,
        }
}

impl View for SubstitutionError {
    type V = ErrV;

    open spec fn view(&self) -> ErrV {
        err_view(*self)
    }
}


/// The text that describes an error.
pub open spec fn message_of(e: ErrV) -> Seq<char>
    decreases e,
{
    match e {
        ErrV::MissingArg(a) => "Argument \""@ + a + "\" was not provided and has no default value. Use {{ ARGS."@ + a + " ? 'default' }} to set a default, or {{ ARGS."@ + a + " ? }} for empty string."@,
        ErrV::MissingEnv(a) => "Environment variable \""@ + a + "\" is not set and has no default value. Use {{ ENV."@ + a + " ? 'default' }} to set a default, or {{ ENV."@ + a + " ? }} for empty string."@,
        ErrV::MissingVar(a) => "Variable \""@ + a + "\" is not defined. Define it first with {{ define("@ + a + ", ...) }}, or give a fallback with {{ VARS."@ + a + " ? 'default' }}."@,
        ErrV::MissingLoopVar(a) => "Loop variable \""@ + a + "\" is not in scope. `{{ LOOP."@ + a + " }}` only resolves inside the body of a `for` block whose `for` field is \""@ + a + "\"."@,
        ErrV::UnknownRunKey(a) => "Unknown {{ RUN."@ + a + " }} key. Valid keys are: os, shell, arch, parent."@,
        ErrV::DuplicateEnvCasing(a, b) => "Duplicate environment variable with different casing: \""@ + a + "\" and \""@ + b + "\". Use a single consistent casing."@,
        ErrV::UnexpectedArgs(a) => "No command in this target accepts arguments, but arguments were provided: "@ + a,
        ErrV::UnknownNamedArg(a) => "Unknown named argument \"--"@ + a + "\". No command uses {{ ARGS."@ + a + " }}."@,
        ErrV::FunctionArity(name, expected, got) => "Function `"@ + name + "` expects "@ + expected + " argument(s), got "@ + dec(got) + "."@,
        ErrV::UnknownFunction(a) => "Unknown function `"@ + a + "`."@,
        ErrV::FunctionUnavailable(a) => "Function `"@ + a + "` needs a host for outside work, and this run has none."@,
        ErrV::InvalidVarName(a) => "Invalid variable name `"@ + a + "`: `define` takes a bare name of letters, digits and `_`."@,
        ErrV::UnbalancedParens(a) => "Unbalanced parentheses in `"@ + a + "`."@,
        ErrV::MalformedSubstitution(a, b) => "Malformed substitution `"@ + a + "`: "@ + b,
        ErrV::BarewordLiteralNotAllowed(a) => "Bare word `"@ + a + "` is not allowed here: write a literal in single quotes."@,
        ErrV::DslError(a) => "Invalid condition: "@ + a,
        ErrV::DslValueNotBoolean(value) => "Condition value `"@ + value + "` is not a boolean: use 'true', 'false', or compare with == or !=."@,
        ErrV::InvalidBase64(a) => "Invalid base64 input: "@ + a,
        ErrV::NonUtf8Decoded => "Decoded bytes are not valid UTF-8."@,
        ErrV::InvalidNumber(name, message) => "Invalid number for `"@ + name + "`: "@ + message,
        ErrV::InvalidNumeric(name, message) => "Invalid numeric argument for `"@ + name + "`: "@ + message,
        ErrV::InvalidRegex(name, message) => "Invalid regular expression for `"@ + name + "`: "@ + message,
        ErrV::OneOfNoMatch(value, options) => "Value \""@ + value + "\" is not one of: "@ + options,
        ErrV::DivideByZero => "Division by zero."@,
        ErrV::ReadFileError(a, b) => "Cannot read file `"@ + a + "`: "@ + b,
        ErrV::WriteFileError(a, b) => "Cannot write file `"@ + a + "`: "@ + b,
        ErrV::InvalidJson(a, b) => "Invalid JSON passed to `"@ + a + "`: "@ + b,
        ErrV::InvalidJsonPath(a, b) => "Invalid JSON path `"@ + a + "`: "@ + b,
        ErrV::CaptureFailed(command, message) => "Command `"@ + command + "` failed: "@ + message,
        ErrV::InvalidTimeFormat(a) => "Unknown time format `"@ + a + "`."@,
        ErrV::TempFileError(a) => "Cannot create a temporary file: "@ + a,
        ErrV::TempDirError(a) => "Cannot create a temporary directory: "@ + a,
        ErrV::InvalidUrlEncoding(a) => "Invalid percent-encoding in `"@ + a + "`."@,
        ErrV::UserError(a) => a,
        ErrV::TooManyQueries => "Too many prompts or host calls for one substitution."@,
        ErrV::TryFailed(b) => "try failed: "@ + message_of(*b),
    }
}

impl SubstitutionError {
    /// The text that describes this error.
    pub fn message(&self) -> (r: String)
        ensures
            r@ == message_of(self@),
        decreases self,
    {
        let mut m: Vec<char> = Vec::new();
        match self {
            SubstitutionError::MissingArg(a) => {
                push_str(&mut m, "Argument \"");
                push_str(&mut m, a.as_str());
                push_str(&mut m, "\" was not provided and has no default value. Use {{ ARGS.");
                push_str(&mut m, a.as_str());
                push_str(&mut m, " ? 'default' }} to set a default, or {{ ARGS.");
                push_str(&mut m, a.as_str());
                push_str(&mut m, " ? }} for empty string.");
            },
            SubstitutionError::MissingEnv(a) => {
                push_str(&mut m, "Environment variable \"");
                push_str(&mut m, a.as_str());
                push_str(&mut m, "\" is not set and has no default value. Use {{ ENV.");
                push_str(&mut m, a.as_str());
                push_str(&mut m, " ? 'default' }} to set a default, or {{ ENV.");
                push_str(&mut m, a.as_str());
                push_str(&mut m, " ? }} for empty string.");
            },
            SubstitutionError::MissingVar(a) => {
                push_str(&mut m, "Variable \"");
                push_str(&mut m, a.as_str());
                push_str(&mut m, "\" is not defined. Define it first with {{ define(");
                push_str(&mut m, a.as_str());
                push_str(&mut m, ", ...) }}, or give a fallback with {{ VARS.");
                push_str(&mut m, a.as_str());
                push_str(&mut m, " ? 'default' }}.");
            },
            SubstitutionError::MissingLoopVar(a) => {
                push_str(&mut m, "Loop variable \"");
                push_str(&mut m, a.as_str());
                push_str(&mut m, "\" is not in scope. `{{ LOOP.");
                push_str(&mut m, a.as_str());
                push_str(&mut m, " }}` only resolves inside the body of a `for` block whose `for` field is \"");
                push_str(&mut m, a.as_str());
                push_str(&mut m, "\".");
            },
            SubstitutionError::UnknownRunKey(a) => {
                push_str(&mut m, "Unknown {{ RUN.");
                push_str(&mut m, a.as_str());
                push_str(&mut m, " }} key. Valid keys are: os, shell, arch, parent.");
            },
            SubstitutionError::DuplicateEnvCasing(a, b) => {
                push_str(&mut m, "Duplicate environment variable with different casing: \"");
                push_str(&mut m, a.as_str());
                push_str(&mut m, "\" and \"");
                push_str(&mut m, b.as_str());
                push_str(&mut m, "\". Use a single consistent casing.");
            },
            SubstitutionError::UnexpectedArgs(a) => {
                push_str(&mut m, "No command in this target accepts arguments, but arguments were provided: ");
                push_str(&mut m, a.as_str());
            },
            SubstitutionError::UnknownNamedArg(a) => {
                push_str(&mut m, "Unknown named argument \"--");
                push_str(&mut m, a.as_str());
                push_str(&mut m, "\". No command uses {{ ARGS.");
                push_str(&mut m, a.as_str());
                push_str(&mut m, " }}.");
            },
            SubstitutionError::FunctionArity { name, expected, got } => {
                push_str(&mut m, "Function `");
                push_str(&mut m, name.as_str());
                push_str(&mut m, "` expects ");
                push_str(&mut m, expected.as_str());
                push_str(&mut m, " argument(s), got ");
                push_all(&mut m, &dec_exec(*got));
                push_str(&mut m, ".");
            },
            SubstitutionError::UnknownFunction(a) => {
                push_str(&mut m, "Unknown function `");
                push_str(&mut m, a.as_str());
                push_str(&mut m, "`.");
            },
            SubstitutionError::FunctionUnavailable(a) => {
                push_str(&mut m, "Function `");
                push_str(&mut m, a.as_str());
                push_str(&mut m, "` needs a host for outside work, and this run has none.");
            },
            SubstitutionError::InvalidVarName(a) => {
                push_str(&mut m, "Invalid variable name `");
                push_str(&mut m, a.as_str());
                push_str(&mut m, "`: `define` takes a bare name of letters, digits and `_`.");
            },
            SubstitutionError::UnbalancedParens(a) => {
                push_str(&mut m, "Unbalanced parentheses in `");
                push_str(&mut m, a.as_str());
                push_str(&mut m, "`.");
            },
            SubstitutionError::MalformedSubstitution(a, b) => {
                push_str(&mut m, "Malformed substitution `");
                push_str(&mut m, a.as_str());
                push_str(&mut m, "`: ");
                push_str(&mut m, b.as_str());
            },
            SubstitutionError::BarewordLiteralNotAllowed(a) => {
                push_str(&mut m, "Bare word `");
                push_str(&mut m, a.as_str());
                push_str(&mut m, "` is not allowed here: write a literal in single quotes.");
            },
            SubstitutionError::DslError(a) => {
                push_str(&mut m, "Invalid condition: ");
                push_str(&mut m, a.as_str());
            },
            SubstitutionError::DslValueNotBoolean { value } => {
                push_str(&mut m, "Condition value `");
                push_str(&mut m, value.as_str());
                push_str(&mut m, "` is not a boolean: use 'true', 'false', or compare with == or !=.");
            },
            SubstitutionError::InvalidBase64(a) => {
                push_str(&mut m, "Invalid base64 input: ");
                push_str(&mut m, a.as_str());
            },
            SubstitutionError::NonUtf8Decoded => {
                push_str(&mut m, "Decoded bytes are not valid UTF-8.");
            },
            SubstitutionError::InvalidNumber { name, message } => {
                push_str(&mut m, "Invalid number for `");
                push_str(&mut m, name.as_str());
                push_str(&mut m, "`: ");
                push_str(&mut m, message.as_str());
            },
            SubstitutionError::InvalidNumeric { name, message } => {
                push_str(&mut m, "Invalid numeric argument for `");
                push_str(&mut m, name.as_str());
                push_str(&mut m, "`: ");
                push_str(&mut m, message.as_str());
            },
            SubstitutionError::InvalidRegex { name, message } => {
                push_str(&mut m, "Invalid regular expression for `");
                push_str(&mut m, name.as_str());
                push_str(&mut m, "`: ");
                push_str(&mut m, message.as_str());
            },
            SubstitutionError::OneOfNoMatch { value, options } => {
                push_str(&mut m, "Value \"");
                push_str(&mut m, value.as_str());
                push_str(&mut m, "\" is not one of: ");
                push_str(&mut m, options.as_str());
            },
            SubstitutionError::DivideByZero => {
                push_str(&mut m, "Division by zero.");
            },
            SubstitutionError::ReadFileError(a, b) => {
                push_str(&mut m, "Cannot read file `");
                push_str(&mut m, a.as_str());
                push_str(&mut m, "`: ");
                push_str(&mut m, b.as_str());
            },
            SubstitutionError::WriteFileError(a, b) => {
                push_str(&mut m, "Cannot write file `");
                push_str(&mut m, a.as_str());
                push_str(&mut m, "`: ");
                push_str(&mut m, b.as_str());
            },
            SubstitutionError::InvalidJson(a, b) => {
                push_str(&mut m, "Invalid JSON passed to `");
                push_str(&mut m, a.as_str());
                push_str(&mut m, "`: ");
                push_str(&mut m, b.as_str());
            },
            SubstitutionError::InvalidJsonPath(a, b) => {
                push_str(&mut m, "Invalid JSON path `");
                push_str(&mut m, a.as_str());
                push_str(&mut m, "`: ");
                push_str(&mut m, b.as_str());
            },
            SubstitutionError::CaptureFailed { command, message } => {
                push_str(&mut m, "Command `");
                push_str(&mut m, command.as_str());
                push_str(&mut m, "` failed: ");
                push_str(&mut m, message.as_str());
            },
            SubstitutionError::InvalidTimeFormat(a) => {
                push_str(&mut m, "Unknown time format `");
                push_str(&mut m, a.as_str());
                push_str(&mut m, "`.");
            },
            SubstitutionError::TempFileError(a) => {
                push_str(&mut m, "Cannot create a temporary file: ");
                push_str(&mut m, a.as_str());
            },
            SubstitutionError::TempDirError(a) => {
                push_str(&mut m, "Cannot create a temporary directory: ");
                push_str(&mut m, a.as_str());
            },
            SubstitutionError::InvalidUrlEncoding(a) => {
                push_str(&mut m, "Invalid percent-encoding in `");
                push_str(&mut m, a.as_str());
                push_str(&mut m, "`.");
            },
            SubstitutionError::UserError(a) => {
                push_str(&mut m, a.as_str());
            },
            SubstitutionError::TooManyQueries => {
                push_str(&mut m, "Too many prompts or host calls for one substitution.");
            },
            SubstitutionError::TryFailed { source } => {
                push_str(&mut m, "try failed: ");
                let inner = source.message();
                push_str(&mut m, inner.as_str());
            },
        }
        string_of(&m)
    }
}

} // verus!
