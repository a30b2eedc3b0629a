//! The executable counterparts of the evaluator's values ([`crate::model`]):
//! chunks, questions, answers, state and context, each with its view, and
//! the small operations on them.

use vstd::prelude::*;
use crate::model::{Chunk, Query, Answer, Stop, St, Ctx};
use crate::errors::{SubstitutionError, ErrV};
use crate::text::{slice_of, string_of};

verus! {

pub open spec fn pairs_view(p: Seq<(Vec<char>, Vec<char>)>) -> Seq<(Seq<char>, Seq<char>)> {
    p.map_values(|e: (Vec<char>, Vec<char>)| (e.0@, e.1@))
}

pub open spec fn texts_view(p: Seq<Vec<char>>) -> Seq<Seq<char>> {
    p.map_values(|e: Vec<char>| e@)
}

pub open spec fn opt_view(o: Option<Vec<char>>) -> Option<Seq<char>> {
    match o {
        Some(v) => Some(v@),
        None => None,
    }
}

pub enum ChunkX {
    Text(Vec<char>),
    Rest,
}

impl View for ChunkX {
    type V = Chunk;

    open spec fn view(&self) -> Chunk {
        match self {
            ChunkX::Text(v) => Chunk::Text(v@),
            ChunkX::Rest => Chunk::Rest,
        }
    }
}

pub open spec fn chunks_view(p: Seq<ChunkX>) -> Seq<Chunk> {
    p.map_values(|e: ChunkX| e@)
}

/// A question for the outside (see [`Query`]).
pub enum QueryX {
    Value { key: Vec<char>, default: Option<Vec<char>> },
    Flag { key: Vec<char> },
    Call { name: Vec<char>, args: Vec<Vec<char>> },
}

impl View for QueryX {
    type V = Query;

    open spec fn view(&self) -> Query {
        match self {
            QueryX::Value { key, default } => Query::Value { key: key@, default: opt_view(*default) },
            QueryX::Flag { key } => Query::Flag { key: key@ },
            QueryX::Call { name, args } => Query::Call { name: name@, args: texts_view(args@) },
        }
    }
}

/// An answer from the outside (see [`Answer`]).
pub enum AnswerX {
    Value(Option<Vec<char>>),
    Flag(bool),
    Call(Result<Vec<char>, SubstitutionError>),
}

impl View for AnswerX {
    type V = Answer;

    open spec fn view(&self) -> Answer {
        match self {
            AnswerX::Value(v) => Answer::Value(opt_view(*v)),
            AnswerX::Flag(b) => Answer::Flag(*b),
            AnswerX::Call(Ok(v)) => Answer::Call(Ok(v@)),
            AnswerX::Call(Err(e)) => Answer::Call(Err(e@)),
        }
    }
}

pub open spec fn answers_view(p: Seq<AnswerX>) -> Seq<Answer> {
    p.map_values(|e: AnswerX| e@)
}

pub enum StopX {
    Fail(SubstitutionError),
    Ask(QueryX),
}

impl View for StopX {
    type V = Stop;

    open spec fn view(&self) -> Stop {
        match self {
            StopX::Fail(e) => Stop::Fail(e@),
            StopX::Ask(q) => Stop::Ask(q@),
        }
    }
}

pub open spec fn rv<T: View>(r: Result<T, StopX>) -> Result<T::V, Stop> {
    match r {
        Ok(v) => Ok(v@),
        Err(e) => Err(e@),
    }
}

pub open spec fn rb(r: Result<bool, StopX>) -> Result<bool, Stop> {
    match r {
        Ok(v) => Ok(v),
        Err(e) => Err(e@),
    }
}

/// Evaluation state (see [`St`]).
pub struct StX {
    pub consumed: Vec<Vec<char>>,
    pub flags: Vec<Vec<char>>,
    pub vars: Vec<(Vec<char>, Vec<char>)>,
    pub pos: usize,
}

impl View for StX {
    type V = St;

    open spec fn view(&self) -> St {
        St {
            consumed: texts_view(self.consumed@),
            flags: texts_view(self.flags@),
            vars: pairs_view(self.vars@),
            pos: self.pos as nat,
        }
    }
}

/// What a substitution is evaluated against (see [`Ctx`]).
pub struct CtxX {
    pub original: Vec<Vec<char>>,
    pub named: Vec<(Vec<char>, Vec<char>)>,
    pub env: Vec<(Vec<char>, Vec<char>)>,
    pub loopv: Vec<(Vec<char>, Vec<char>)>,
    pub os: Vec<char>,
    pub shell: Vec<char>,
    pub arch: Vec<char>,
    pub parent: Vec<char>,
    pub redact: bool,
    pub dry_run: bool,
    pub prompt: bool,
    pub answers: Vec<AnswerX>,
}

impl View for CtxX {
    type V = Ctx;

    open spec fn view(&self) -> Ctx {
        Ctx {
            original: texts_view(self.original@),
            named: pairs_view(self.named@),
            env: pairs_view(self.env@),
            loopv: pairs_view(self.loopv@),
            os: self.os@,
            shell: self.shell@,
            arch: self.arch@,
            parent: self.parent@,
            redact: self.redact,
            dry_run: self.dry_run,
            prompt: self.prompt,
            answers: answers_view(self.answers@),
        }
    }
}

/// A copy of a character vector.
pub fn copy_chars(v: &Vec<char>) -> (r: Vec<char>)
    ensures
        r@ == v@,
{
    let r = slice_of(v, 0, v.len());
    assert(v@.subrange(0, v.len() as int) =~= v@);
    r
}

/// A copy of a list of texts.
pub fn copy_texts(v: &Vec<Vec<char>>) -> (r: Vec<Vec<char>>)
    ensures
        texts_view(r@) == texts_view(v@),
{
    let mut r: Vec<Vec<char>> = Vec::new();
    let mut i: usize = 0;
    while i < v.len()
        invariant
            i <= v.len(),
            texts_view(r@) == texts_view(v@).take(i as int),
        decreases v.len() - i,
    {
        let x = copy_chars(&v[i]);
        let ghost old_r = r@;
        r.push(x);
        assert(r@ == old_r.push(x));
        assert(texts_view(old_r).len() == i);
        assert(old_r.len() == i);
        assert(r@.len() == i + 1);
        assert(texts_view(r@).len() == i + 1);
        assert forall|j: int| 0 <= j <= i implies #[trigger] texts_view(r@)[j] == texts_view(v@)[j] by {
            if j < i {
                assert(texts_view(old_r)[j] == texts_view(v@).take(i as int)[j]);
            }
        }
        i += 1;
        assert(texts_view(r@) =~= texts_view(v@).take(i as int));
    }
    assert(texts_view(v@).take(v.len() as int) =~= texts_view(v@));
    r
}

/// A copy of a list of pairs.
pub fn copy_pairs(v: &Vec<(Vec<char>, Vec<char>)>) -> (r: Vec<(Vec<char>, Vec<char>)>)
    ensures
        pairs_view(r@) == pairs_view(v@),
{
    let mut r: Vec<(Vec<char>, Vec<char>)> = Vec::new();
    let mut i: usize = 0;
    while i < v.len()
        invariant
            i <= v.len(),
            pairs_view(r@) == pairs_view(v@).take(i as int),
        decreases v.len() - i,
    {
        let x = (copy_chars(&v[i].0), copy_chars(&v[i].1));
        let ghost old_r = r@;
        r.push(x);
        assert(r@ == old_r.push(x));
        assert(pairs_view(old_r).len() == i);
        assert(old_r.len() == i);
        assert(r@.len() == i + 1);
        assert(pairs_view(r@).len() == i + 1);
        assert forall|j: int| 0 <= j <= i implies #[trigger] pairs_view(r@)[j] == pairs_view(v@)[j] by {
            if j < i {
                assert(pairs_view(old_r)[j] == pairs_view(v@).take(i as int)[j]);
            }
        }
        i += 1;
        assert(pairs_view(r@) =~= pairs_view(v@).take(i as int));
    }
    assert(pairs_view(v@).take(v.len() as int) =~= pairs_view(v@));
    r
}

/// A copy of a string.
pub fn copy_string(s: &String) -> (r: String)
    ensures
        r@ == s@,
{
    s.clone()
}

/// A copy of an error, field by field.
pub fn copy_error(e: &SubstitutionError) -> (r: SubstitutionError)
    ensures
        r@ == e@,
    decreases e,
{
    match e {
        SubstitutionError::MissingArg(a) => SubstitutionError::MissingArg(copy_string(a)),
        SubstitutionError::MissingEnv(a) => SubstitutionError::MissingEnv(copy_string(a)),
        SubstitutionError::MissingVar(a) => SubstitutionError::MissingVar(copy_string(a)),
        SubstitutionError::MissingLoopVar(a) => SubstitutionError::MissingLoopVar(copy_string(a)),
        SubstitutionError::UnknownRunKey(a) => SubstitutionError::UnknownRunKey(copy_string(a)),
        SubstitutionError::DuplicateEnvCasing(a, b) => SubstitutionError::DuplicateEnvCasing(copy_string(a), copy_string(b)),
        SubstitutionError::UnexpectedArgs(a) => SubstitutionError::UnexpectedArgs(copy_string(a)),
        SubstitutionError::UnknownNamedArg(a) => SubstitutionError::UnknownNamedArg(copy_string(a)),
        SubstitutionError::FunctionArity { name, expected, got } => SubstitutionError::FunctionArity {
            name: copy_string(name),
            expected: copy_string(expected),
            got: *got,
        },
        SubstitutionError::UnknownFunction(a) => SubstitutionError::UnknownFunction(copy_string(a)),
        SubstitutionError::FunctionUnavailable(a) => SubstitutionError::FunctionUnavailable(copy_string(a)),
        SubstitutionError::InvalidVarName(a) => SubstitutionError::InvalidVarName(copy_string(a)),
        SubstitutionError::UnbalancedParens(a) => SubstitutionError::UnbalancedParens(copy_string(a)),
        SubstitutionError::MalformedSubstitution(a, b) => SubstitutionError::MalformedSubstitution(copy_string(a), copy_string(b)),
        SubstitutionError::BarewordLiteralNotAllowed(a) => SubstitutionError::BarewordLiteralNotAllowed(copy_string(a)),
        SubstitutionError::DslError(a) => SubstitutionError::DslError(copy_string(a)),
        SubstitutionError::DslValueNotBoolean { value } => SubstitutionError::DslValueNotBoolean { value: copy_string(value) },
        SubstitutionError::InvalidBase64(a) => SubstitutionError::InvalidBase64(copy_string(a)),
        SubstitutionError::NonUtf8Decoded => SubstitutionError::NonUtf8Decoded,
        SubstitutionError::InvalidNumber { name, message } => SubstitutionError::InvalidNumber {
            name: copy_string(name),
            message: copy_string(message),
        },
        SubstitutionError::InvalidNumeric { name, message } => SubstitutionError::InvalidNumeric {
            name: copy_string(name),
            message: copy_string(message),
        },
        SubstitutionError::InvalidRegex { name, message } => SubstitutionError::InvalidRegex {
            name: copy_string(name),
            message: copy_string(message),
        },
        SubstitutionError::OneOfNoMatch { value, options } => SubstitutionError::OneOfNoMatch {
            value: copy_string(value),
            options: copy_string(options),
        },
        SubstitutionError::TryFailed { source } => SubstitutionError::TryFailed { source: Box::new(copy_error(source)) },
        SubstitutionError::DivideByZero => SubstitutionError::DivideByZero,
        SubstitutionError::ReadFileError(a, b) => SubstitutionError::ReadFileError(copy_string(a), copy_string(b)),
        SubstitutionError::WriteFileError(a, b) => SubstitutionError::WriteFileError(copy_string(a), copy_string(b)),
        SubstitutionError::InvalidJson(a, b) => SubstitutionError::InvalidJson(copy_string(a), copy_string(b)),
        SubstitutionError::InvalidJsonPath(a, b) => SubstitutionError::InvalidJsonPath(copy_string(a), copy_string(b)),
        SubstitutionError::CaptureFailed { command, message } => SubstitutionError::CaptureFailed {
            command: copy_string(command),
            message: copy_string(message),
        },
        SubstitutionError::InvalidTimeFormat(a) => SubstitutionError::InvalidTimeFormat(copy_string(a)),
        SubstitutionError::TempFileError(a) => SubstitutionError::TempFileError(copy_string(a)),
        SubstitutionError::TempDirError(a) => SubstitutionError::TempDirError(copy_string(a)),
        SubstitutionError::InvalidUrlEncoding(a) => SubstitutionError::InvalidUrlEncoding(copy_string(a)),
        SubstitutionError::UserError(a) => SubstitutionError::UserError(copy_string(a)),
        SubstitutionError::TooManyQueries => SubstitutionError::TooManyQueries,
    }
}

/// The text of `v` as a `String`.
pub fn text(v: &Vec<char>) -> (r: String)
    ensures
        r@ == v@,
{
    string_of(v)
}

} // verus!
