//! The command that runs a type's script.
//!
//! A script is started as `shell shell-args.. script -name <package> [-cwd <dir>] [-etag <token>]
//! args..`. The flags always come before the arguments that the user declared, so no argument can
//! take the place of a flag.

use vstd::prelude::*;
use vstd::string::StringExecFns;
use crate::error::ErrorKind;
use crate::escape_win::escape_pwsh;
use crate::escape_win::escaped;
use crate::text::opt_text;
use crate::text::texts;

verus! {

/// One argument of a command.
#[derive(Debug, Clone, PartialEq, Eq)]
pub struct CommandArg {
    /// The argument as it is handed to the process.
    pub text: String,
    /// Whether the text is already quoted and must reach the process unchanged.
    pub raw: bool,
}

/// An argument as plain values.
pub struct CommandArgView {
    pub text: Seq<char>,
    pub raw: bool,
}

impl View for CommandArg {
    type V = CommandArgView;

    open spec fn view(&self) -> CommandArgView {
        CommandArgView { text: self.text@, raw: self.raw }
    }
}

/// The views of a sequence of arguments.
pub open spec fn arg_views(v: Seq<CommandArg>) -> Seq<CommandArgView> {
    Seq::new(v.len(), |i: int| v[i]@)
}

/// An argument that is passed as it is.
pub open spec fn plain(t: Seq<char>) -> CommandArgView {
    CommandArgView { text: t, raw: false }
}

/// An argument that carries a value: quoted for PowerShell where `escape` is set, else plain.
pub open spec fn value(escape: bool, t: Seq<char>) -> CommandArgView {
    if escape {
        CommandArgView { text: escaped(t), raw: true }
    } else {
        plain(t)
    }
}

/// Arguments that are all passed as they are.
pub open spec fn plain_all(ts: Seq<Seq<char>>) -> Seq<CommandArgView> {
    Seq::new(ts.len(), |i: int| plain(ts[i]))
}

/// Arguments that all carry values.
pub open spec fn value_all(escape: bool, ts: Seq<Seq<char>>) -> Seq<CommandArgView> {
    Seq::new(ts.len(), |i: int| value(escape, ts[i]))
}

/// A flag with its value, or nothing where the value is absent.
pub open spec fn flag(escape: bool, name: Seq<char>, v: Option<Seq<char>>) -> Seq<CommandArgView> {
    match v {
        Some(x) => seq![plain(name), value(escape, x)],
        None => Seq::empty(),
    }
}

/// The flags that every script gets: the package's name, then the working directory override
/// and the cache token where there is one.
pub open spec fn script_flags(
    escape: bool,
    name: Seq<char>,
    cwd: Option<Seq<char>>,
    etag: Option<Seq<char>>,
) -> Seq<CommandArgView> {
    seq![plain("-name"@), value(escape, name)] + flag(escape, "-cwd"@, cwd) + flag(
        escape,
        "-etag"@,
        etag,
    )
}

/// What comes before the user's arguments: the shell's own arguments, the script, the flags.
pub open spec fn command_head(
    escape: bool,
    shell_args: Seq<Seq<char>>,
    script: Seq<char>,
    name: Seq<char>,
    cwd: Option<Seq<char>>,
    etag: Option<Seq<char>>,
) -> Seq<CommandArgView> {
    plain_all(shell_args) + seq![value(escape, script)] + script_flags(escape, name, cwd, etag)
}

/// The arguments of the command that runs a script.
pub open spec fn command_line(
    escape: bool,
    shell_args: Seq<Seq<char>>,
    script: Seq<char>,
    name: Seq<char>,
    cwd: Option<Seq<char>>,
    etag: Option<Seq<char>>,
    args: Seq<Seq<char>>,
) -> Seq<CommandArgView> {
    command_head(escape, shell_args, script, name, cwd, etag) + value_all(escape, args)
}

/// Where the arguments are placed, whatever the user's arguments hold: after the shell's own
/// arguments the script, `-name` and the package's name; then `-cwd` and `-etag`, each with its
/// value and only where there is one, `-cwd` first; the user's arguments last. What stands
/// before them does not depend on them.
pub proof fn lemma_flags_before_args(
    escape: bool,
    shell_args: Seq<Seq<char>>,
    script: Seq<char>,
    name: Seq<char>,
    cwd: Option<Seq<char>>,
    etag: Option<Seq<char>>,
    args: Seq<Seq<char>>,
)
    ensures
        ({
            let line = command_line(escape, shell_args, script, name, cwd, etag, args);
            let n = shell_args.len() as int;
            let c: int = if cwd is Some { 2 } else { 0 };
            let e: int = if etag is Some { 2 } else { 0 };
            &&& line.len() == n + 3 + c + e + args.len()
            &&& line.subrange(0, n) == plain_all(shell_args)
            &&& line[n] == value(escape, script)
            &&& line[n + 1] == plain("-name"@)
            &&& line[n + 2] == value(escape, name)
            &&& cwd is Some ==> line[n + 3] == plain("-cwd"@) && line[n + 4] == value(escape, cwd.unwrap())
            &&& etag is Some ==> line[n + 3 + c] == plain("-etag"@) && line[n + 4 + c] == value(
                escape,
                etag.unwrap(),
            )
            &&& line.subrange(n + 3 + c + e, line.len() as int) == value_all(escape, args)
            &&& line.subrange(0, n + 3 + c + e) == command_line(
                escape,
                shell_args,
                script,
                name,
                cwd,
                etag,
                Seq::empty(),
            )
        }),
{
    let line = command_line(escape, shell_args, script, name, cwd, etag, args);
    let bare = command_line(escape, shell_args, script, name, cwd, etag, Seq::empty());
    let n = shell_args.len() as int;
    let c: int = if cwd is Some { 2 } else { 0 };
    let e: int = if etag is Some { 2 } else { 0 };
    assert(line.subrange(0, n) =~= plain_all(shell_args));
    assert(line.subrange(n + 3 + c + e, line.len() as int) =~= value_all(escape, args));
    assert(line.subrange(0, n + 3 + c + e) =~= bare);
}

/// A command, ready to be started.
#[derive(Debug, Clone, PartialEq, Eq)]
pub struct Invocation {
    /// The shell that runs the script.
    pub program: String,
    /// Its arguments, in order.
    pub args: Vec<CommandArg>,
    /// The directory in which the process starts.
    pub working_dir: String,
    /// The script's file.
    pub script: String,
}

/// A command as plain values.
pub struct InvocationView {
    pub program: Seq<char>,
    pub args: Seq<CommandArgView>,
    pub working_dir: Seq<char>,
    pub script: Seq<char>,
}

impl View for Invocation {
    type V = InvocationView;

    open spec fn view(&self) -> InvocationView {
        InvocationView {
            program: self.program@,
            args: arg_views(self.args@),
            working_dir: self.working_dir@,
            script: self.script@,
        }
    }
}

/// The directory in which a script runs: the override where there is one, else the repository.
pub open spec fn working_dir_of(repo_path: Seq<char>, cwd: Option<Seq<char>>) -> Seq<char> {
    match cwd {
        Some(dir) => dir,
        None => repo_path,
    }
}

/// The command that runs `script` under `shell` for the package `name`.
pub open spec fn invocation_of(
    escape: bool,
    shell: Seq<char>,
    shell_args: Seq<Seq<char>>,
    script: Seq<char>,
    name: Seq<char>,
    repo_path: Seq<char>,
    cwd: Option<Seq<char>>,
    etag: Option<Seq<char>>,
    args: Seq<Seq<char>>,
) -> InvocationView {
    InvocationView {
        program: shell,
        args: command_line(escape, shell_args, script, name, cwd, etag, args),
        working_dir: working_dir_of(repo_path, cwd),
        script,
    }
}

/// Whether `r` is what `expected` says: that command, or that error.
pub open spec fn is_invocation(
    r: Result<Invocation, ErrorKind>,
    expected: Result<InvocationView, ErrorKind>,
) -> bool {
    match r {
        Ok(inv) => expected == Ok::<InvocationView, ErrorKind>(inv@),
        Err(e) => expected == Err::<InvocationView, ErrorKind>(e),
    }
}

/// Appends an argument that is passed as it is.
fn push_plain(out: &mut Vec<CommandArg>, text: &str)
    ensures
        arg_views(final(out)@) == arg_views(old(out)@).push(plain(text@)),
{
    out.push(CommandArg { text: String::from_str(text), raw: false });
    assert(arg_views(out@) =~= arg_views(old(out)@).push(plain(text@)));
}

/// Appends an argument that carries a value.
fn push_value(out: &mut Vec<CommandArg>, escape: bool, text: &str)
    ensures
        arg_views(final(out)@) == arg_views(old(out)@).push(value(escape, text@)),
{
    if escape {
        out.push(CommandArg { text: escape_pwsh(text), raw: true });
    } else {
        out.push(CommandArg { text: String::from_str(text), raw: false });
    }
    assert(arg_views(out@) =~= arg_views(old(out)@).push(value(escape, text@)));
}

/// Appends a flag and its value where there is one.
fn push_flag(out: &mut Vec<CommandArg>, escape: bool, name: &str, v: &Option<String>)
    ensures
        arg_views(final(out)@) == arg_views(old(out)@) + flag(escape, name@, opt_text(*v)),
{
    match v {
        Some(x) => {
            push_plain(out, name);
            push_value(out, escape, x.as_str());
            assert(arg_views(out@) =~= arg_views(old(out)@) + flag(escape, name@, opt_text(*v)));
        },
        None => {
            assert(arg_views(out@) =~= arg_views(old(out)@) + flag(escape, name@, opt_text(*v)));
        },
    }
}

/// Builds the command that runs `script` under `shell` for the package `name`. With `escape`
/// set, every value is quoted for PowerShell and marked as raw; flags and the shell's own
/// arguments never are.
pub fn assemble(
    escape: bool,
    shell: &str,
    shell_args: &Vec<String>,
    script: String,
    name: &str,
    repo_path: &str,
    cwd: &Option<String>,
    etag: &Option<String>,
    args: &Vec<String>,
) -> (inv: Invocation)
    ensures
        inv@ == invocation_of(
            escape,
            shell@,
            texts(shell_args@),
            script@,
            name@,
            repo_path@,
            opt_text(*cwd),
            opt_text(*etag),
            texts(args@),
        ),
{
    let mut out: Vec<CommandArg> = Vec::new();
    let mut i: usize = 0;
    while i < shell_args.len()
        invariant
            i <= shell_args@.len(),
            arg_views(out@) == plain_all(texts(shell_args@).take(i as int)),
        decreases shell_args@.len() - i,
    {
        push_plain(&mut out, shell_args[i].as_str());
        assert(texts(shell_args@).take(i + 1) =~= texts(shell_args@).take(i as int).push(
            shell_args@[i as int]@,
        ));
        assert(plain_all(texts(shell_args@).take(i + 1)) =~= plain_all(
            texts(shell_args@).take(i as int),
        ).push(plain(shell_args@[i as int]@)));
        i += 1;
    }
    assert(texts(shell_args@).take(i as int) =~= texts(shell_args@));
    push_value(&mut out, escape, script.as_str());
    push_plain(&mut out, "-name");
    push_value(&mut out, escape, name);
    push_flag(&mut out, escape, "-cwd", cwd);
    push_flag(&mut out, escape, "-etag", etag);
    let ghost head = command_head(
        escape,
        texts(shell_args@),
        script@,
        name@,
        opt_text(*cwd),
        opt_text(*etag),
    );
    assert(arg_views(out@) =~= head);
    let mut j: usize = 0;
    while j < args.len()
        invariant
            j <= args@.len(),
            arg_views(out@) == head + value_all(escape, texts(args@).take(j as int)),
        decreases args@.len() - j,
    {
        push_value(&mut out, escape, args[j].as_str());
        assert(texts(args@).take(j + 1) =~= texts(args@).take(j as int).push(args@[j as int]@));
        assert(head + value_all(escape, texts(args@).take(j + 1)) =~= (head + value_all(
            escape,
            texts(args@).take(j as int),
        )).push(value(escape, args@[j as int]@)));
        j += 1;
    }
    assert(texts(args@).take(j as int) =~= texts(args@));
    let working_dir = match cwd {
        Some(dir) => dir.clone(),
        None => String::from_str(repo_path),
    };
    Invocation { program: String::from_str(shell), args: out, working_dir, script }
}

} // verus!
