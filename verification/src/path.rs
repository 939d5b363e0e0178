//! Paths, held as text. Joining and cleaning go by the rules of the platform the library is
//! built for.

use vstd::prelude::*;

verus! {

/// The path that std's `Path::join` gives for `leaf` under `base`.
pub uninterp spec fn joined_path(base: Seq<char>, leaf: Seq<char>) -> Seq<char>;

/// The path that `path_clean::clean` gives for `path`: the same place, named without `.`,
/// without doubled separators, and without `..` where the parent can be told from the path itself.
pub uninterp spec fn cleaned_path(path: Seq<char>) -> Seq<char>;

/// std's `Path::join`, from text to text.
#[verifier::external_body]
pub(crate) fn join(base: &str, leaf: &str) -> (r: String)
    ensures
        r@ == joined_path(base@, leaf@),
{
    std::path::Path::new(base).join(leaf).to_string_lossy().into_owned()
}

/// `path_clean::clean`, from text to text. It works on the path's text alone and never looks at
/// the filesystem.
#[verifier::external_body]
pub(crate) fn clean(path: &str) -> (r: String)
    ensures
        r@ == cleaned_path(path@),
{
    path_clean::clean(path).to_string_lossy().into_owned()
}

/// The directories under which the engine keeps its files, and the platform it runs on.
#[derive(Debug, Clone, PartialEq, Eq)]
pub struct EngineContext {
    /// Where the scripts of the package types are.
    pub script_root: String,
    /// Where a repository is put that is added without a path.
    pub repositories_root: String,
    /// Whether the host is Windows.
    pub windows: bool,
}

/// The context as plain values.
pub struct EngineContextView {
    pub script_root: Seq<char>,
    pub repositories_root: Seq<char>,
    pub windows: bool,
}

impl View for EngineContext {
    type V = EngineContextView;

    open spec fn view(&self) -> EngineContextView {
        EngineContextView {
            script_root: self.script_root@,
            repositories_root: self.repositories_root@,
            windows: self.windows,
        }
    }
}

impl EngineContext {
    /// The context with these directories on this platform.
    pub fn new(script_root: String, repositories_root: String, windows: bool) -> (ctx: Self)
        ensures
            ctx@ == (EngineContextView {
                script_root: script_root@,
                repositories_root: repositories_root@,
                windows,
            }),
    {
        EngineContext { script_root, repositories_root, windows }
    }
}

/// The tool's own directory under the user's home directory.
pub open spec fn home_root(home_dir: Seq<char>) -> Seq<char> {
    joined_path(home_dir, ".gpm"@)
}

/// The files and directories of the tool.
#[derive(Debug, Clone, PartialEq, Eq)]
pub struct Home {
    /// The tool's own directory.
    pub root: String,
    /// The file of the repository registry.
    pub config_file: String,
    /// The file of the type registry.
    pub types_file: String,
    /// Where scripts and repositories are, and the platform.
    pub context: EngineContext,
}

impl Home {
    /// The layout under the user's home directory: `.gpm`, and in it `config.toml`,
    /// `types.toml`, `scripts` and `repositories`.
    pub fn under(home_dir: &str, windows: bool) -> (home: Self)
        ensures
            home.root@ == home_root(home_dir@),
            home.config_file@ == joined_path(home_root(home_dir@), "config.toml"@),
            home.types_file@ == joined_path(home_root(home_dir@), "types.toml"@),
            home.context@ == (EngineContextView {
                script_root: joined_path(home_root(home_dir@), "scripts"@),
                repositories_root: joined_path(home_root(home_dir@), "repositories"@),
                windows,
            }),
    {
        let root = join(home_dir, ".gpm");
        let config_file = join(root.as_str(), "config.toml");
        let types_file = join(root.as_str(), "types.toml");
        let script_root = join(root.as_str(), "scripts");
        let repositories_root = join(root.as_str(), "repositories");
        Home { root, config_file, types_file, context: EngineContext::new(script_root, repositories_root, windows) }
    }

    /// The directories that have to exist before the tool is used, in the order of their
    /// creation: the tool's own, the repositories' root, the script root.
    pub fn directories(&self) -> (dirs: Vec<String>)
        ensures
            dirs@.len() == 3,
            dirs@[0]@ == self.root@,
            dirs@[1]@ == self.context@.repositories_root,
            dirs@[2]@ == self.context@.script_root,
    {
        let mut dirs: Vec<String> = Vec::new();
        dirs.push(self.root.clone());
        dirs.push(self.context.repositories_root.clone());
        dirs.push(self.context.script_root.clone());
        dirs
    }
}

/// Where a repository goes: under the repositories' root by its name, or at the path the user
/// gave, taken from the current directory and cleaned.
pub open spec fn repository_path_of(
    repositories_root: Seq<char>,
    current_dir: Seq<char>,
    name: Seq<char>,
    path: Option<Seq<char>>,
) -> Seq<char> {
    match path {
        Some(p) => cleaned_path(joined_path(current_dir, p)),
        None => joined_path(repositories_root, name),
    }
}

/// The directory of a repository that is about to be added.
pub fn resolve_repository_path(
    ctx: &EngineContext,
    current_dir: &str,
    name: &str,
    path: &Option<String>,
) -> (r: String)
    ensures
        r@ == repository_path_of(
            ctx@.repositories_root,
            current_dir@,
            name@,
            crate::text::opt_text(*path),
        ),
{
    match path {
        Some(p) => {
            let joined = join(current_dir, p.as_str());
            clean(joined.as_str())
        },
        None => join(ctx.repositories_root.as_str(), name),
    }
}

} // verus!
