//! The registry of package types and of the shells that run their scripts.
//!
//! A type is a script `<name>.<ext>` under the script root and the name of a shell. A type may
//! have a second script, `<name>.post.<ext>`, that runs after the first one gave a new cache token.

use vstd::prelude::*;
use vstd::string::StringExecFns;
use crate::command::assemble;
use crate::command::invocation_of;
use crate::command::is_invocation;
use crate::command::Invocation;
use crate::command::InvocationView;
use crate::error::ErrorKind;
use crate::escape_win::is_powershell;
use crate::escape_win::is_powershell_name;
use crate::path::join;
use crate::path::joined_path;
use crate::path::EngineContext;
use crate::path::EngineContextView;
use crate::recovery::after_removal;
use crate::recovery::removal_report;
use crate::recovery::settle_removal;
use crate::recovery::RemovalOutcome;
use crate::recovery::RemovalReport;
use crate::registry::bindings;
use crate::registry::lemma_bindings_step;
use crate::registry::lemma_listing_round_trip;
use crate::registry::lists;
use crate::registry::Registry;
use crate::text::copy_texts;
use crate::text::opt_text;
use crate::text::texts;

verus! {

/// A shell: the arguments that stand between its name and the script.
#[derive(Debug, Clone, PartialEq, Eq)]
pub struct Shell {
    pub args: Vec<String>,
}

impl View for Shell {
    type V = Seq<Seq<char>>;

    open spec fn view(&self) -> Seq<Seq<char>> {
        texts(self.args@)
    }
}

/// A package type: the extension of its script and the name of the shell that runs it.
#[derive(Debug, Clone, PartialEq, Eq)]
pub struct TypeProp {
    pub ext: String,
    pub shell: String,
}

/// A package type as plain values.
pub struct TypePropView {
    pub ext: Seq<char>,
    pub shell: Seq<char>,
}

impl View for TypeProp {
    type V = TypePropView;

    open spec fn view(&self) -> TypePropView {
        TypePropView { ext: self.ext@, shell: self.shell@ }
    }
}

impl TypeProp {
    /// The type whose script has the extension `ext` and runs under `shell`.
    pub fn new(ext: String, shell: String) -> (r: Self)
        ensures
            r@ == (TypePropView { ext: ext@, shell: shell@ }),
    {
        TypeProp { ext, shell }
    }
}

/// The shell of a host that has no other: PowerShell on Windows, bash elsewhere.
pub open spec fn default_shell_name(windows: bool) -> Seq<char> {
    if windows {
        "powershell"@
    } else {
        "bash"@
    }
}

/// The arguments of the default shell.
pub open spec fn default_shell_args() -> Seq<Seq<char>> {
    seq!["-c"@]
}

/// The file name of a type's script.
pub open spec fn script_file(kind: Seq<char>, ext: Seq<char>) -> Seq<char> {
    kind + "."@ + ext
}

/// The file name of the script that a type may have for the time after a new cache token.
pub open spec fn post_script_file(kind: Seq<char>, ext: Seq<char>) -> Seq<char> {
    kind + ".post."@ + ext
}

/// The file name of a type's script, or of its post script.
pub fn script_file_name(kind: &str, ext: &str, post: bool) -> (r: String)
    ensures
        r@ == if post {
            post_script_file(kind@, ext@)
        } else {
            script_file(kind@, ext@)
        },
{
    let dot = if post {
        ".post."
    } else {
        "."
    };
    String::from_str(kind).concat(dot).concat(ext)
}

/// The name of the shell of a host that has no other.
pub fn default_shell(windows: bool) -> (r: String)
    ensures
        r@ == default_shell_name(windows),
{
    if windows {
        String::from_str("powershell")
    } else {
        String::from_str("bash")
    }
}

/// A package type as it is stored. A type stored without a shell runs under the host's default
/// shell.
#[derive(Debug, Clone, PartialEq, Eq)]
pub struct TomlTypeProp {
    pub ext: String,
    pub shell: Option<String>,
}

/// The type registry as it is stored: shells and types, each name with what it stands for.
#[derive(Debug, Clone, PartialEq, Eq)]
pub struct TomlTypeConfig {
    pub shell: Vec<(String, Vec<String>)>,
    pub types: Vec<(String, TomlTypeProp)>,
}

/// The type that a stored type stands for on a host.
pub open spec fn stored_type(p: TomlTypeProp, windows: bool) -> TypePropView {
    TypePropView {
        ext: p.ext@,
        shell: match p.shell {
            Some(s) => s@,
            None => default_shell_name(windows),
        },
    }
}

/// The stored shells as a listing.
pub open spec fn shell_rows(v: Seq<(String, Vec<String>)>) -> Seq<(Seq<char>, Seq<Seq<char>>)> {
    Seq::new(v.len(), |i: int| (v[i].0@, texts(v[i].1@)))
}

/// The stored types as a listing.
pub open spec fn type_rows(v: Seq<(String, TomlTypeProp)>, windows: bool) -> Seq<
    (Seq<char>, TypePropView),
> {
    Seq::new(v.len(), |i: int| (v[i].0@, stored_type(v[i].1, windows)))
}

impl TomlTypeConfig {
    /// The registry that the stored form stands for on a host. Of two entries with one name the
    /// later one counts.
    pub fn to_config(&self, windows: bool) -> (r: TypeConfig)
        ensures
            r@.shell == bindings(shell_rows(self.shell@)),
            r@.types == bindings(type_rows(self.types@, windows)),
    {
        let mut shell: Registry<Shell> = Registry::new();
        let ghost srows = shell_rows(self.shell@);
        let mut i: usize = self.shell.len();
        assert(srows.take(i as int) =~= srows);
        assert(bindings(srows).union_prefer_right(shell@) =~= bindings(srows));
        while i > 0
            invariant
                i <= self.shell@.len(),
                srows == shell_rows(self.shell@),
                bindings(srows) == bindings(srows.take(i as int)).union_prefer_right(shell@),
            decreases i,
        {
            proof {
                lemma_bindings_step(srows, i as int, shell@);
            }
            i -= 1;
            let row = &self.shell[i];
            shell.insert(row.0.clone(), Shell { args: copy_texts(&row.1) });
        }
        assert(bindings(srows.take(0)).union_prefer_right(shell@) =~= shell@);
        let mut types: Registry<TypeProp> = Registry::new();
        let ghost trows = type_rows(self.types@, windows);
        let mut j: usize = self.types.len();
        assert(trows.take(j as int) =~= trows);
        assert(bindings(trows).union_prefer_right(types@) =~= bindings(trows));
        while j > 0
            invariant
                j <= self.types@.len(),
                trows == type_rows(self.types@, windows),
                bindings(trows) == bindings(trows.take(j as int)).union_prefer_right(types@),
            decreases j,
        {
            proof {
                lemma_bindings_step(trows, j as int, types@);
            }
            j -= 1;
            let row = &self.types[j];
            let shell_name = match &row.1.shell {
                Some(s) => s.clone(),
                None => default_shell(windows),
            };
            types.insert(row.0.clone(), TypeProp::new(row.1.ext.clone(), shell_name));
        }
        assert(bindings(trows.take(0)).union_prefer_right(types@) =~= types@);
        TypeConfig { shell, types }
    }
}

/// The package types and the shells.
pub struct TypeConfig {
    /// Shell name to the shell's arguments.
    pub shell: Registry<Shell>,
    /// Type name to the type's properties.
    pub types: Registry<TypeProp>,
}

/// The type registry as plain values: the shells and the types.
pub struct TypeConfigView {
    pub shell: Map<Seq<char>, Seq<Seq<char>>>,
    pub types: Map<Seq<char>, TypePropView>,
}

impl View for TypeConfig {
    type V = TypeConfigView;

    open spec fn view(&self) -> TypeConfigView {
        TypeConfigView { shell: self.shell@, types: self.types@ }
    }
}

/// The command that runs the script of `kind`, or its post script, for the package `name`;
/// or why there is none. Values are quoted for PowerShell where the host is Windows and the
/// type's shell is PowerShell.
pub open spec fn invocation_for(
    cfg: TypeConfigView,
    ctx: EngineContextView,
    post: bool,
    kind: Seq<char>,
    name: Seq<char>,
    repo_path: Seq<char>,
    etag: Option<Seq<char>>,
    cwd: Option<Seq<char>>,
    args: Seq<Seq<char>>,
) -> Result<InvocationView, ErrorKind> {
    if !cfg.types.contains_key(kind) {
        Err(ErrorKind::UnknownType)
    } else if !cfg.shell.contains_key(cfg.types[kind].shell) {
        Err(ErrorKind::UnknownShell)
    } else {
        let prop = cfg.types[kind];
        let file = if post {
            post_script_file(kind, prop.ext)
        } else {
            script_file(kind, prop.ext)
        };
        Ok(
            invocation_of(
                ctx.windows && is_powershell_name(prop.shell),
                prop.shell,
                cfg.shell[prop.shell],
                joined_path(ctx.script_root, file),
                name,
                repo_path,
                cwd,
                etag,
                args,
            ),
        )
    }
}

impl TypeConfig {
    /// No types, and the host's default shell with `-c`.
    pub fn new(windows: bool) -> (r: Self)
        ensures
            r@.types == Map::<Seq<char>, TypePropView>::empty(),
            r@.shell == Map::<Seq<char>, Seq<Seq<char>>>::empty().insert(
                default_shell_name(windows),
                default_shell_args(),
            ),
    {
        let mut shell: Registry<Shell> = Registry::new();
        let mut args: Vec<String> = Vec::new();
        args.push(String::from_str("-c"));
        assert(texts(args@) =~= default_shell_args());
        shell.insert(default_shell(windows), Shell { args });
        TypeConfig { shell, types: Registry::new() }
    }

    /// The stored form: shells and types in key order, each type with its shell written out.
    /// Read back on any host, it gives the same registry.
    pub fn to_toml_config(&self) -> (t: TomlTypeConfig)
        ensures
            lists(shell_rows(t.shell@), self@.shell),
            forall|w: bool| lists(#[trigger] type_rows(t.types@, w), self@.types),
            bindings(shell_rows(t.shell@)) == self@.shell,
            forall|w: bool| bindings(#[trigger] type_rows(t.types@, w)) == self@.types,
    {
        let mut shell: Vec<(String, Vec<String>)> = Vec::new();
        let n = self.shell.len();
        let mut i: usize = 0;
        while i < n
            invariant
                i <= n,
                n == self.shell.listing().len(),
                shell_rows(shell@) == self.shell.listing().take(i as int),
            decreases n - i,
        {
            let e = self.shell.entry_at(i);
            let ghost before = shell@;
            shell.push((e.name.clone(), copy_texts(&e.value.args)));
            assert(before.len() == shell_rows(before).len());
            assert forall|k: int| 0 <= k <= i implies shell_rows(shell@)[k] == self.shell.listing()[k] by {
                if k < i {
                    assert(shell_rows(before)[k] == self.shell.listing().take(i as int)[k]);
                }
            }
            assert(shell_rows(shell@) =~= self.shell.listing().take(i + 1));
            i += 1;
        }
        assert(self.shell.listing().take(n as int) =~= self.shell.listing());
        let mut types: Vec<(String, TomlTypeProp)> = Vec::new();
        let m = self.types.len();
        let mut j: usize = 0;
        while j < m
            invariant
                j <= m,
                m == self.types.listing().len(),
                forall|w: bool| #[trigger] type_rows(types@, w) == self.types.listing().take(j as int),
            decreases m - j,
        {
            let e = self.types.entry_at(j);
            let ghost before = types@;
            types.push(
                (e.name.clone(), TomlTypeProp { ext: e.value.ext.clone(), shell: Some(e.value.shell.clone()) }),
            );
            assert forall|w: bool| #[trigger] type_rows(types@, w) == self.types.listing().take(j + 1) by {
                assert(before.len() == type_rows(before, w).len());
                assert forall|k: int| 0 <= k <= j implies type_rows(types@, w)[k]
                    == self.types.listing()[k] by {
                    if k < j {
                        assert(type_rows(before, w)[k] == self.types.listing().take(j as int)[k]);
                    }
                }
                assert(type_rows(types@, w) =~= self.types.listing().take(j + 1));
            }
            j += 1;
        }
        assert(self.types.listing().take(m as int) =~= self.types.listing());
        proof {
            lemma_listing_round_trip(shell_rows(shell@), self@.shell);
            assert forall|w: bool| bindings(#[trigger] type_rows(types@, w)) == self@.types by {
                lemma_listing_round_trip(type_rows(types@, w), self@.types);
            }
        }
        TomlTypeConfig { shell, types }
    }

    /// The properties of the type `kind`.
    pub fn resolve(&self, kind: &str) -> (r: Result<&TypeProp, ErrorKind>)
        ensures
            match r {
                Ok(prop) => self@.types.contains_key(kind@) && prop@ == self@.types[kind@],
                Err(e) => !self@.types.contains_key(kind@) && e == ErrorKind::UnknownType,
            },
    {
        match self.types.get(kind) {
            Some(prop) => Ok(prop),
            None => Err(ErrorKind::UnknownType),
        }
    }

    /// The script file that a new type needs, so that it can be created where it is missing.
    /// Fails where the name is taken.
    pub fn plan_add(&self, ctx: &EngineContext, name: &str, ext: &str) -> (r: Result<String, ErrorKind>)
        ensures
            match r {
                Ok(path) => !self@.types.contains_key(name@) && path@ == joined_path(
                    ctx@.script_root,
                    script_file(name@, ext@),
                ),
                Err(e) => self@.types.contains_key(name@) && e == ErrorKind::AlreadyExists,
            },
    {
        if self.types.contains(name) {
            return Err(ErrorKind::AlreadyExists);
        }
        let file = script_file_name(name, ext, false);
        Ok(join(ctx.script_root.as_str(), file.as_str()))
    }

    /// Registers a type. Fails where the name is taken, and then changes nothing.
    pub fn add(&mut self, name: String, ext: String, shell: String) -> (r: Result<(), ErrorKind>)
        ensures
            final(self)@.shell == old(self)@.shell,
            match r {
                Ok(_) => !old(self)@.types.contains_key(name@) && final(self)@.types == old(self)@.types.insert(name@, TypePropView { ext: ext@, shell: shell@ }),
                Err(e) => old(self)@.types.contains_key(name@) && e == ErrorKind::AlreadyExists
                    && final(self)@ == old(self)@,
            },
    {
        if self.types.insert(name, TypeProp::new(ext, shell)) {
            Ok(())
        } else {
            Err(ErrorKind::AlreadyExists)
        }
    }

    /// The script file of a type that is to be removed, or nothing where no such type is
    /// registered.
    pub fn removal_target(&self, ctx: &EngineContext, name: &str) -> (r: Option<String>)
        ensures
            r is Some <==> self@.types.contains_key(name@),
            r is Some ==> r.unwrap()@ == joined_path(
                ctx@.script_root,
                script_file(name@, self@.types[name@].ext),
            ),
    {
        match self.types.get(name) {
            Some(prop) => {
                let file = script_file_name(name, prop.ext.as_str(), false);
                Some(join(ctx.script_root.as_str(), file.as_str()))
            },
            None => None,
        }
    }

    /// Settles the removal of one type once its script file was dealt with.
    pub fn remove(&mut self, name: &str, outcome: RemovalOutcome) -> (report: RemovalReport)
        ensures
            final(self)@.shell == old(self)@.shell,
            final(self)@.types == after_removal(old(self)@.types, name@, outcome),
            report == removal_report(old(self)@.types, name@, outcome),
    {
        settle_removal(&mut self.types, name, outcome)
    }

    /// Drops types from the registry and leaves their script files alone. Says for each name
    /// whether a type went with it.
    pub fn remove_registry(&mut self, names: Vec<String>) -> (dropped: Vec<bool>)
        ensures
            final(self)@.shell == old(self)@.shell,
            final(self)@.types == old(self)@.types.remove_keys(texts(names@).to_set()),
            dropped@.len() == names@.len(),
            forall|i: int|
                0 <= i < names@.len() ==> (#[trigger] dropped@[i] <==> old(self)@.types.contains_key(
                    names@[i]@,
                ) && forall|j: int| 0 <= j < i ==> names@[j]@ != names@[i]@),
    {
        self.types.remove_all(&names)
    }

    /// Builds the command that runs a type's script for a package, or its post script where
    /// `post` is set: the shell, its arguments, the script, `-name`, then `-cwd` and `-etag`
    /// where there is a value, then `args`.
    pub fn build_invocation(
        &self,
        ctx: &EngineContext,
        post: bool,
        kind: &str,
        name: &str,
        repo_path: &str,
        etag: &Option<String>,
        cwd: &Option<String>,
        args: &Vec<String>,
    ) -> (r: Result<Invocation, ErrorKind>)
        ensures
            is_invocation(
                r,
                invocation_for(
                    self@,
                    ctx@,
                    post,
                    kind@,
                    name@,
                    repo_path@,
                    opt_text(*etag),
                    opt_text(*cwd),
                    texts(args@),
                ),
            ),
    {
        let prop = match self.types.get(kind) {
            Some(prop) => prop,
            None => {
                return Err(ErrorKind::UnknownType);
            },
        };
        let shell = match self.shell.get(prop.shell.as_str()) {
            Some(shell) => shell,
            None => {
                return Err(ErrorKind::UnknownShell);
            },
        };
        let file = script_file_name(kind, prop.ext.as_str(), post);
        let script = join(ctx.script_root.as_str(), file.as_str());
        let escape = ctx.windows && is_powershell(prop.shell.as_str());
        Ok(assemble(escape, prop.shell.as_str(), &shell.args, script, name, repo_path, cwd, etag, args))
    }
}

} // verus!
