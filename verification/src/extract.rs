//! Printing a target's resolved commands as lines that a given shell can run
//! as they stand: each command's environment becomes shell-native
//! assignments in front of it, quoted so that the shell reads the value back
//! unchanged. Also the separator used when several commands are joined into
//! one shell invocation.

use vstd::prelude::*;
use crate::text::{push_str, push_all, string_of, chars_of};
use crate::funcs::{join_seq, join_from_x};
use crate::values::texts_view;

verus! {

/// The shells a command line can be written for.
#[derive(Clone, Copy, PartialEq, Eq, Structural, Debug)]
pub enum ShellKind {
    Bash,
    Zsh,
    Sh,
    Fish,
    PowerShell,
    Cmd,
}

/// One resolved command with the environment it needs.
#[derive(Debug, Clone)]
pub struct ExtractedCommand {
    /// The command with its substitutions applied.
    pub command: String,
    /// Environment variables to set for the command, in order.
    pub env_vars: Vec<(String, String)>,
}

/// Characters that a POSIX or fish shell would read specially.
pub open spec fn special(c: char) -> bool {
    c == ' ' || c == '\t' || c == '\n' || c == '"' || c == '\'' || c == '\\' || c == '$' || c == '`'
        || c == '!' || c == '#' || c == '&' || c == '|' || c == ';' || c == '(' || c == ')' || c == '{'
        || c == '}' || c == '[' || c == ']' || c == '<' || c == '>' || c == '?' || c == '*' || c == '~'
}

/// Whether a value must be quoted: it is empty or holds a special character.
pub open spec fn needs_quoting(v: Seq<char>) -> bool {
    v.len() == 0 || exists|i: int| 0 <= i < v.len() && special(#[trigger] v[i])
}

/// `v` with every single quote replaced by `rep`.
pub open spec fn quote_escape(v: Seq<char>, rep: Seq<char>) -> Seq<char>
    decreases v.len(),
{
    if v.len() == 0 {
        Seq::empty()
    } else {
        quote_escape(v.drop_last(), rep) + if v.last() == '\'' { rep } else { seq![v.last()] }
    }
}

/// A POSIX assignment `KEY=value`, single-quoted when the value needs it.
pub open spec fn bash_assignment(k: Seq<char>, v: Seq<char>) -> Seq<char> {
    if needs_quoting(v) {
        k + "='"@ + quote_escape(v, "'\\''"@) + "'"@
    } else {
        k + "="@ + v
    }
}

/// A value as fish reads it back, single-quoted when it needs it.
pub open spec fn fish_quote(v: Seq<char>) -> Seq<char> {
    if needs_quoting(v) {
        "'"@ + quote_escape(v, "'\\''"@) + "'"@
    } else {
        v
    }
}

/// A PowerShell single-quoted literal: quotes inside are doubled.
pub open spec fn powershell_quote(v: Seq<char>) -> Seq<char> {
    "'"@ + quote_escape(v, "''"@) + "'"@
}

/// One environment assignment in the syntax of `kind`.
pub open spec fn env_piece(kind: ShellKind, k: Seq<char>, v: Seq<char>) -> Seq<char> {
    match kind {
        ShellKind::Fish => k + "="@ + fish_quote(v),
        ShellKind::PowerShell => "$env:"@ + k + "="@ + powershell_quote(v),
        ShellKind::Cmd => "set \""@ + k + "="@ + v + "\""@,
        _ => bash_assignment(k, v),
    }
}

/// What separates the assignments from each other and from the command.
pub open spec fn env_separator(kind: ShellKind) -> Seq<char> {
    match kind {
        ShellKind::PowerShell => "; "@,
        ShellKind::Cmd => " && "@,
        _ => " "@,
    }
}

/// The assignments of `env` in the syntax of `kind`.
pub open spec fn env_pieces(kind: ShellKind, env: Seq<(Seq<char>, Seq<char>)>) -> Seq<Seq<char>> {
    env.map_values(|p: (Seq<char>, Seq<char>)| env_piece(kind, p.0, p.1))
}

/// The line that runs `cmd` with `env` set, for `kind`.
pub open spec fn command_line(kind: ShellKind, cmd: Seq<char>, env: Seq<(Seq<char>, Seq<char>)>) -> Seq<char> {
    if env.len() == 0 {
        cmd
    } else {
        let head = join_seq(env_pieces(kind, env), env_separator(kind)) + env_separator(kind) + cmd;
        if kind == ShellKind::Fish {
            "env "@ + head
        } else {
            head
        }
    }
}

/// The environment of a command by its characters.
pub open spec fn env_view(v: Seq<(String, String)>) -> Seq<(Seq<char>, Seq<char>)> {
    v.map_values(|p: (String, String)| (p.0@, p.1@))
}

/// The separator that joins several commands into one invocation.
pub open spec fn join_separator(kind: ShellKind, ignore_errors: bool) -> Seq<char> {
    if !ignore_errors {
        " && "@
    } else if kind == ShellKind::Cmd {
        " & "@
    } else {
        "; "@
    }
}

/// The strings by their characters.
pub open spec fn strs_view(v: Seq<String>) -> Seq<Seq<char>> {
    v.map_values(|s: String| s@)
}

/// Whether `c` is read specially by a POSIX or fish shell.
pub fn is_special(c: char) -> (r: bool)
    ensures
        r == special(c),
{
    c == ' ' || c == '\t' || c == '\n' || c == '"' || c == '\'' || c == '\\' || c == '$' || c == '`'
        || c == '!' || c == '#' || c == '&' || c == '|' || c == ';' || c == '(' || c == ')' || c == '{'
        || c == '}' || c == '[' || c == ']' || c == '<' || c == '>' || c == '?' || c == '*' || c == '~'
}

/// Whether `value` must be quoted for a POSIX or fish shell.
pub fn value_needs_quoting(value: &str) -> (r: bool)
    ensures
        r == needs_quoting(value@),
{
    let v = chars_of(value);
    if v.len() == 0 {
        return true;
    }
    let mut i: usize = 0;
    while i < v.len()
        invariant
            i <= v.len(),
            v@ == value@,
            forall|j: int| 0 <= j < i ==> !special(#[trigger] v@[j]),
        decreases v.len() - i,
    {
        if is_special(v[i]) {
            assert(special(v@[i as int]));
            return true;
        }
        i += 1;
    }
    false
}

/// Appends `v` to `out` with every single quote replaced by `rep`.
fn push_escaped(out: &mut Vec<char>, v: &Vec<char>, rep: &str)
    ensures
        final(out)@ == old(out)@ + quote_escape(v@, rep@),
{
    let mut i: usize = 0;
    while i < v.len()
        invariant
            i <= v.len(),
            out@ == old(out)@ + quote_escape(v@.take(i as int), rep@),
        decreases v.len() - i,
    {
        let ghost pre = out@;
        assert(v@.take(i + 1).drop_last() =~= v@.take(i as int));
        assert(v@.take(i + 1).last() == v@[i as int]);
        if v[i] == '\'' {
            push_str(out, rep);
        } else {
            out.push(v[i]);
        }
        assert(out@ =~= old(out)@ + quote_escape(v@.take(i + 1), rep@));
        i += 1;
    }
    assert(v@.take(v.len() as int) =~= v@);
}

/// `KEY=value` for a POSIX shell, single-quoted when the value needs it.
pub fn format_bash_env_assignment(key: &str, value: &str) -> (r: String)
    ensures
        r@ == bash_assignment(key@, value@),
{
    let mut out: Vec<char> = Vec::new();
    push_str(&mut out, key);
    if value_needs_quoting(value) {
        push_str(&mut out, "='");
        push_escaped(&mut out, &chars_of(value), "'\\''");
        push_str(&mut out, "'");
    } else {
        push_str(&mut out, "=");
        push_str(&mut out, value);
    }
    string_of(&out)
}

/// A value quoted for fish when it needs it.
pub fn shell_quote_fish(value: &str) -> (r: String)
    ensures
        r@ == fish_quote(value@),
{
    let mut out: Vec<char> = Vec::new();
    if value_needs_quoting(value) {
        push_str(&mut out, "'");
        push_escaped(&mut out, &chars_of(value), "'\\''");
        push_str(&mut out, "'");
    } else {
        push_str(&mut out, value);
    }
    string_of(&out)
}

/// A value as a PowerShell single-quoted literal.
pub fn shell_quote_powershell(value: &str) -> (r: String)
    ensures
        r@ == powershell_quote(value@),
{
    let mut out: Vec<char> = Vec::new();
    push_str(&mut out, "'");
    push_escaped(&mut out, &chars_of(value), "''");
    push_str(&mut out, "'");
    string_of(&out)
}

fn env_piece_x(kind: ShellKind, k: &str, v: &str) -> (r: Vec<char>)
    ensures
        r@ == env_piece(kind, k@, v@),
{
    let mut out: Vec<char> = Vec::new();
    match kind {
        ShellKind::Fish => {
            push_str(&mut out, k);
            push_str(&mut out, "=");
            let q = shell_quote_fish(v);
            push_str(&mut out, q.as_str());
        },
        ShellKind::PowerShell => {
            push_str(&mut out, "$env:");
            push_str(&mut out, k);
            push_str(&mut out, "=");
            let q = shell_quote_powershell(v);
            push_str(&mut out, q.as_str());
        },
        ShellKind::Cmd => {
            push_str(&mut out, "set \"");
            push_str(&mut out, k);
            push_str(&mut out, "=");
            push_str(&mut out, v);
            push_str(&mut out, "\"");
        },
        _ => {
            let a = format_bash_env_assignment(k, v);
            push_str(&mut out, a.as_str());
        },
    }
    out
}

fn env_separator_x(kind: ShellKind) -> (r: &'static str)
    ensures
        r@ == env_separator(kind),
{
    match kind {
        ShellKind::PowerShell => "; ",
        ShellKind::Cmd => " && ",
        _ => " ",
    }
}

/// The line that runs one command with its environment set.
pub fn format_single_command(cmd: &ExtractedCommand, shell_kind: &ShellKind) -> (r: String)
    ensures
        r@ == command_line(*shell_kind, cmd.command@, env_view(cmd.env_vars@)),
{
    let kind = *shell_kind;
    if cmd.env_vars.len() == 0 {
        return cmd.command.clone();
    }
    let ghost env = env_view(cmd.env_vars@);
    let mut pieces: Vec<Vec<char>> = Vec::new();
    let mut i: usize = 0;
    while i < cmd.env_vars.len()
        invariant
            i <= cmd.env_vars.len(),
            env == env_view(cmd.env_vars@),
            pieces.len() == i,
            texts_view(pieces@) == env_pieces(kind, env).take(i as int),
        decreases cmd.env_vars.len() - i,
    {
        let p = env_piece_x(kind, cmd.env_vars[i].0.as_str(), cmd.env_vars[i].1.as_str());
        let ghost before = pieces@;
        pieces.push(p);
        proof {
            assert(env[i as int] == (cmd.env_vars@[i as int].0@, cmd.env_vars@[i as int].1@));
            assert(env_pieces(kind, env)[i as int] == p@);
            assert(texts_view(pieces@).len() == i + 1);
            assert forall|j: int| 0 <= j <= i implies #[trigger] texts_view(pieces@)[j] == env_pieces(kind, env).take(i + 1)[j] by {
                if j < i {
                    assert(pieces@[j] == before[j]);
                    assert(texts_view(before)[j] == env_pieces(kind, env).take(i as int)[j]);
                }
            }
        }
        assert(texts_view(pieces@) =~= env_pieces(kind, env).take(i + 1));
        i += 1;
    }
    assert(env_pieces(kind, env).take(i as int) =~= env_pieces(kind, env));
    let sep_s = env_separator_x(kind);
    let sep = chars_of(sep_s);
    let joined = join_from_x(&pieces, 0, &sep);
    assert(texts_view(pieces@).skip(0) =~= texts_view(pieces@));
    let mut out: Vec<char> = Vec::new();
    if kind == ShellKind::Fish {
        push_str(&mut out, "env ");
    }
    push_all(&mut out, &joined);
    push_all(&mut out, &sep);
    push_str(&mut out, cmd.command.as_str());
    proof {
        if kind == ShellKind::Fish {
            assert(out@ =~= "env "@ + (joined@ + sep@ + cmd.command@));
        } else {
            assert(out@ =~= joined@ + sep@ + cmd.command@);
        }
    }
    string_of(&out)
}

/// Every command as a line for `shell_kind`, in order.
pub fn format_extracted_commands(commands: &[ExtractedCommand], shell_kind: &ShellKind) -> (r: Vec<String>)
    ensures
        r.len() == commands.len(),
        forall|i: int| 0 <= i < commands.len() ==> (#[trigger] r@[i])@ == command_line(*shell_kind, commands@[i].command@, env_view(commands@[i].env_vars@)),
{
    let mut out: Vec<String> = Vec::new();
    let mut i: usize = 0;
    while i < commands.len()
        invariant
            i <= commands.len(),
            out.len() == i,
            forall|j: int| 0 <= j < i ==> (#[trigger] out@[j])@ == command_line(*shell_kind, commands@[j].command@, env_view(commands@[j].env_vars@)),
        decreases commands.len() - i,
    {
        let line = format_single_command(&commands[i], shell_kind);
        out.push(line);
        i += 1;
    }
    out
}

/// The characters of each string.
pub fn texts_of(strs: &[String]) -> (r: Vec<Vec<char>>)
    ensures
        texts_view(r@) == strs_view(strs@),
{
    let mut items: Vec<Vec<char>> = Vec::new();
    let mut i: usize = 0;
    while i < strs.len()
        invariant
            i <= strs.len(),
            items.len() == i,
            texts_view(items@) == strs_view(strs@).take(i as int),
        decreases strs.len() - i,
    {
        let ghost before = items@;
        let c = chars_of(strs[i].as_str());
        items.push(c);
        proof {
            assert(texts_view(items@).len() == i + 1);
            assert forall|j: int| 0 <= j <= i implies #[trigger] texts_view(items@)[j] == strs_view(strs@).take(i + 1)[j] by {
                if j < i {
                    assert(items@[j] == before[j]);
                    assert(texts_view(before)[j] == strs_view(strs@).take(i as int)[j]);
                }
            }
        }
        assert(texts_view(items@) =~= strs_view(strs@).take(i + 1));
        i += 1;
    }
    assert(strs_view(strs@).take(i as int) =~= strs_view(strs@));
    items
}

/// Joins the commands of a single shell invocation: a lone command stands
/// as it is; otherwise `&&` chains them, or, when failures are ignored, `;`
/// (`&` for cmd.exe) runs each regardless of the one before.
pub fn join_shell_commands(commands: &[String], shell_kind: &ShellKind, ignore_errors: bool) -> (r: String)
    ensures
        commands.len() == 1 ==> r@ == commands@[0]@,
        commands.len() != 1 ==> r@ == join_seq(strs_view(commands@), join_separator(*shell_kind, ignore_errors)),
{
    if commands.len() == 1 {
        return commands[0].clone();
    }
    let sep_s: &str = if !ignore_errors {
        " && "
    } else if *shell_kind == ShellKind::Cmd {
        " & "
    } else {
        "; "
    };
    let items = texts_of(commands);
    assert(texts_view(items@).skip(0) =~= texts_view(items@));
    let sep = chars_of(sep_s);
    let joined = join_from_x(&items, 0, &sep);
    string_of(&joined)
}

/// The value a `for shell:` loop variable takes when commands are only
/// printed: the iterator does not run, and the body is printed once with
/// `<var>` in its place.
pub fn shell_iterator_placeholder(var: &str) -> (r: String)
    ensures
        r@ == "<"@ + var@ + ">"@,
{
    let mut m: Vec<char> = Vec::new();
    push_str(&mut m, "<");
    push_str(&mut m, var);
    push_str(&mut m, ">");
    string_of(&m)
}

} // verus!
