//! The packages of one repository and their life: added, updated, removed, copied.
//!
//! A package is added or updated by running the script of its type. What the script prints,
//! trimmed, becomes the package's cache token if it is not empty, and is handed back to the
//! script at the next run. The engine reads nothing else into what a script does.

use vstd::prelude::*;
use crate::command::is_invocation;
use crate::command::Invocation;
use crate::command::InvocationView;
use crate::error::ErrorKind;
use crate::output::decode_output;
use crate::output::decoded_output;
use crate::path::join;
use crate::path::joined_path;
use crate::path::EngineContext;
use crate::path::EngineContextView;
use crate::recovery::after_removal;
use crate::recovery::removal_report;
use crate::recovery::settle_removal;
use crate::recovery::RemovalOutcome;
use crate::recovery::RemovalReport;
use crate::registry::bindings;
use crate::registry::lemma_bindings_step;
use crate::registry::lemma_listing_round_trip;
use crate::registry::lists;
use crate::registry::Registry;
use crate::text::copy_opt_text;
use crate::text::copy_texts;
use crate::text::opt_text;
use crate::text::texts;
use crate::type_config::invocation_for;
use crate::type_config::TypeConfig;
use crate::type_config::TypeConfigView;

verus! {

/// A package: its type, the arguments of its script, and the cache token of its last run.
#[derive(Debug, Clone, PartialEq, Eq)]
pub struct Package {
    /// The name of the package's type.
    pub kind: String,
    /// The arguments of the type's script.
    pub args: Vec<String>,
    /// The arguments of the type's post script.
    pub post_args: Vec<String>,
    /// What the script printed at its last run that printed anything.
    pub etag: Option<String>,
    /// The directory in which the scripts run, where it is not the repository.
    pub cwd: Option<String>,
}

/// A package as plain values.
pub struct PackageView {
    pub kind: Seq<char>,
    pub args: Seq<Seq<char>>,
    pub post_args: Seq<Seq<char>>,
    pub etag: Option<Seq<char>>,
    pub cwd: Option<Seq<char>>,
}

impl View for Package {
    type V = PackageView;

    open spec fn view(&self) -> PackageView {
        PackageView {
            kind: self.kind@,
            args: texts(self.args@),
            post_args: texts(self.post_args@),
            etag: opt_text(self.etag),
            cwd: opt_text(self.cwd),
        }
    }
}

/// A package after a run that printed `token`: an empty token changes nothing, any other
/// becomes the cache token.
pub open spec fn with_token(p: PackageView, token: Seq<char>) -> PackageView {
    if token.len() == 0 {
        p
    } else {
        PackageView { etag: Some(token), ..p }
    }
}

/// A package without its cache token.
pub open spec fn without_token(p: PackageView) -> PackageView {
    PackageView { etag: None, ..p }
}

impl Package {
    /// A package that has not run yet: it has no cache token.
    pub fn new(kind: String, args: Vec<String>, post_args: Vec<String>, cwd: Option<String>) -> (r: Self)
        ensures
            r@ == (PackageView {
                kind: kind@,
                args: texts(args@),
                post_args: texts(post_args@),
                etag: None,
                cwd: opt_text(cwd),
            }),
    {
        Package { kind, args, post_args, etag: None, cwd }
    }

    /// Takes in what a run printed, already trimmed. Says whether the cache token was set, which
    /// is when the post script is due.
    pub fn record(&mut self, token: String) -> (set: bool)
        ensures
            final(self)@ == with_token(old(self)@, token@),
            set == (token@.len() > 0),
    {
        if token.as_str().is_empty() {
            false
        } else {
            self.etag = Some(token);
            true
        }
    }

    /// A copy of the package.
    pub fn duplicate(&self) -> (r: Self)
        ensures
            r@ == self@,
    {
        Package {
            kind: self.kind.clone(),
            args: copy_texts(&self.args),
            post_args: copy_texts(&self.post_args),
            etag: copy_opt_text(&self.etag),
            cwd: copy_opt_text(&self.cwd),
        }
    }
}

/// A package as it is stored.
#[derive(Debug, Clone, PartialEq, Eq)]
pub struct TomlPackage {
    pub kind: String,
    pub args: Vec<String>,
    pub post_args: Vec<String>,
    pub etag: Option<String>,
    pub cwd: Option<String>,
}

impl View for TomlPackage {
    type V = PackageView;

    open spec fn view(&self) -> PackageView {
        PackageView {
            kind: self.kind@,
            args: texts(self.args@),
            post_args: texts(self.post_args@),
            etag: opt_text(self.etag),
            cwd: opt_text(self.cwd),
        }
    }
}

/// The package registry of a repository as it is stored: each name with its package.
#[derive(Debug, Clone, PartialEq, Eq)]
pub struct TomlRepoConfig {
    pub packages: Vec<(String, TomlPackage)>,
}

/// The stored packages as a listing.
pub open spec fn package_rows(v: Seq<(String, TomlPackage)>) -> Seq<(Seq<char>, PackageView)> {
    Seq::new(v.len(), |i: int| (v[i].0@, v[i].1@))
}

impl TomlRepoConfig {
    /// The packages that the stored form stands for, as the registry of the repository at
    /// `path`. Of two entries with one name the later one counts.
    pub fn to_config(&self, path: String, type_config: TypeConfig) -> (r: RepoConfig)
        ensures
            r.packages@ == bindings(package_rows(self.packages@)),
            r.path@ == path@,
            r.type_config == type_config,
    {
        let mut packages: Registry<Package> = Registry::new();
        let ghost rows = package_rows(self.packages@);
        let mut i: usize = self.packages.len();
        assert(rows.take(i as int) =~= rows);
        assert(bindings(rows).union_prefer_right(packages@) =~= bindings(rows));
        while i > 0
            invariant
                i <= self.packages@.len(),
                rows == package_rows(self.packages@),
                bindings(rows) == bindings(rows.take(i as int)).union_prefer_right(packages@),
            decreases i,
        {
            proof {
                lemma_bindings_step(rows, i as int, packages@);
            }
            i -= 1;
            let row = &self.packages[i];
            let package = Package {
                kind: row.1.kind.clone(),
                args: copy_texts(&row.1.args),
                post_args: copy_texts(&row.1.post_args),
                etag: copy_opt_text(&row.1.etag),
                cwd: copy_opt_text(&row.1.cwd),
            };
            packages.insert(row.0.clone(), package);
        }
        assert(bindings(rows.take(0)).union_prefer_right(packages@) =~= packages@);
        RepoConfig { packages, type_config, path }
    }
}

/// What a run means for the cache token: the trimmed text of what was printed, or why there
/// is none.
pub open spec fn run_token(run: Result<Vec<u8>, ErrorKind>) -> Result<Seq<char>, ErrorKind> {
    match run {
        Ok(stdout) => decoded_output(stdout@),
        Err(e) => Err(e),
    }
}

/// The packages after the run that adds `name` as the package `p`.
pub open spec fn after_add(
    m: Map<Seq<char>, PackageView>,
    name: Seq<char>,
    p: PackageView,
    token: Result<Seq<char>, ErrorKind>,
) -> Map<Seq<char>, PackageView> {
    if !m.contains_key(name) && token is Ok {
        m.insert(name, with_token(p, token->Ok_0))
    } else {
        m
    }
}

/// What adding `name` comes to: whether the post script is due, or why nothing was added.
pub open spec fn add_result(
    m: Map<Seq<char>, PackageView>,
    name: Seq<char>,
    token: Result<Seq<char>, ErrorKind>,
) -> Result<bool, ErrorKind> {
    if m.contains_key(name) {
        Err(ErrorKind::AlreadyExists)
    } else {
        match token {
            Ok(t) => Ok(t.len() > 0),
            Err(e) => Err(e),
        }
    }
}

/// The packages after a run that updates `name`.
pub open spec fn after_update(
    m: Map<Seq<char>, PackageView>,
    name: Seq<char>,
    token: Result<Seq<char>, ErrorKind>,
) -> Map<Seq<char>, PackageView> {
    if m.contains_key(name) && token is Ok {
        m.insert(name, with_token(m[name], token->Ok_0))
    } else {
        m
    }
}

/// What updating `name` comes to: whether the post script is due, or why nothing changed.
pub open spec fn update_result(
    m: Map<Seq<char>, PackageView>,
    name: Seq<char>,
    token: Result<Seq<char>, ErrorKind>,
) -> Result<bool, ErrorKind> {
    if !m.contains_key(name) {
        Err(ErrorKind::NotFound)
    } else {
        match token {
            Ok(t) => Ok(t.len() > 0),
            Err(e) => Err(e),
        }
    }
}

/// The packages after the runs of a batch of updates, one after the other.
pub open spec fn after_updates(
    m: Map<Seq<char>, PackageView>,
    runs: Seq<(Seq<char>, Result<Seq<char>, ErrorKind>)>,
) -> Map<Seq<char>, PackageView>
    decreases runs.len(),
{
    if runs.len() == 0 {
        m
    } else {
        after_update(after_updates(m, runs.drop_last()), runs.last().0, runs.last().1)
    }
}

/// A run that printed nothing leaves every package as it was, and no post script is due.
pub proof fn lemma_empty_output_changes_nothing(m: Map<Seq<char>, PackageView>, name: Seq<char>)
    requires
        m.contains_key(name),
    ensures
        after_update(m, name, Ok(Seq::<char>::empty())) == m,
        update_result(m, name, Ok(Seq::<char>::empty())) == Ok::<bool, ErrorKind>(false),
{
    assert(m.insert(name, m[name]) =~= m);
}

/// A run that printed a token makes exactly that token the package's cache token, changes
/// nothing else, and the post script is due.
pub proof fn lemma_token_replaced(m: Map<Seq<char>, PackageView>, name: Seq<char>, token: Seq<char>)
    requires
        m.contains_key(name),
        token.len() > 0,
    ensures
        after_update(m, name, Ok(token)).dom() == m.dom(),
        after_update(m, name, Ok(token))[name] == (PackageView { etag: Some(token), ..m[name] }),
        forall|k: Seq<char>| k != name && m.contains_key(k) ==> #[trigger] after_update(m, name, Ok(token))[k]
            == m[k],
        update_result(m, name, Ok(token)) == Ok::<bool, ErrorKind>(true),
{
    assert(after_update(m, name, Ok(token)).dom() =~= m.dom());
}

/// In a batch of updates that names no package twice, each package ends as its own run leaves
/// it, whatever became of the others; and a package that the batch does not name is as it was.
pub proof fn lemma_after_updates(
    m: Map<Seq<char>, PackageView>,
    runs: Seq<(Seq<char>, Result<Seq<char>, ErrorKind>)>,
)
    requires
        forall|i: int, j: int| 0 <= i < j < runs.len() ==> (#[trigger] runs[i]).0 != (#[trigger] runs[j]).0,
    ensures
        after_updates(m, runs).dom() == m.dom(),
        forall|i: int|
            0 <= i < runs.len() && m.contains_key((#[trigger] runs[i]).0) ==> after_updates(m, runs)[runs[i].0]
                == (match runs[i].1 {
                Ok(token) => with_token(m[runs[i].0], token),
                Err(_) => m[runs[i].0],
            }),
        forall|k: Seq<char>|
            m.contains_key(k) && (forall|i: int| 0 <= i < runs.len() ==> (#[trigger] runs[i]).0 != k)
                ==> #[trigger] after_updates(m, runs)[k] == m[k],
    decreases runs.len(),
{
    if runs.len() > 0 {
        let p = runs.drop_last();
        let last = runs.last();
        let before = after_updates(m, p);
        let r = after_updates(m, runs);
        assert(forall|i: int| 0 <= i < p.len() ==> p[i] == runs[i]);
        lemma_after_updates(m, p);
        assert(r.dom() =~= m.dom());
        assert(forall|i: int| 0 <= i < p.len() ==> (#[trigger] p[i]).0 != last.0);
        assert forall|i: int| 0 <= i < runs.len() && m.contains_key((#[trigger] runs[i]).0) implies r[runs[i].0]
            == (match runs[i].1 {
            Ok(token) => with_token(m[runs[i].0], token),
            Err(_) => m[runs[i].0],
        }) by {
            if i < p.len() {
                assert(p[i].0 != last.0);
                assert(r[runs[i].0] == before[p[i].0]);
            } else {
                assert(before[last.0] == m[last.0]);
            }
        }
        assert forall|k: Seq<char>|
            m.contains_key(k) && (forall|i: int| 0 <= i < runs.len() ==> (#[trigger] runs[i]).0 != k) implies #[trigger] r[k]
            == m[k] by {
            assert(runs[runs.len() - 1].0 != k);
            assert forall|i: int| 0 <= i < p.len() implies (#[trigger] p[i]).0 != k by {
                assert(runs[i].0 != k);
            }
            assert(before[k] == m[k]);
        }
    } else {
        assert(after_updates(m, runs).dom() =~= m.dom());
    }
}

/// One failure in a batch of updates touches no other package. Where the run of every package
/// but one succeeds, those packages end as their runs leave them, and the one whose run failed
/// is as it was.
pub proof fn lemma_update_failure_isolated(
    m: Map<Seq<char>, PackageView>,
    runs: Seq<(Seq<char>, Result<Seq<char>, ErrorKind>)>,
    failed: int,
)
    requires
        0 <= failed < runs.len(),
        forall|i: int, j: int| 0 <= i < j < runs.len() ==> (#[trigger] runs[i]).0 != (#[trigger] runs[j]).0,
        forall|i: int| 0 <= i < runs.len() ==> m.contains_key((#[trigger] runs[i]).0),
        runs[failed].1 is Err,
        forall|i: int| 0 <= i < runs.len() && i != failed ==> (#[trigger] runs[i]).1 is Ok,
    ensures
        after_updates(m, runs).dom() == m.dom(),
        forall|i: int|
            0 <= i < runs.len() && i != failed ==> after_updates(m, runs)[(#[trigger] runs[i]).0] == with_token(
                m[runs[i].0],
                runs[i].1->Ok_0,
            ),
        after_updates(m, runs)[runs[failed].0] == m[runs[failed].0],
{
    lemma_after_updates(m, runs);
}

/// Where a package is copied from and to.
#[derive(Debug, Clone, PartialEq, Eq)]
pub struct CopyPlan {
    pub from: String,
    pub to: String,
}

/// The command of one of the scripts of the package `p`, named `name`, in the repository at
/// `repo_path`: the script of its type with its arguments, or the post script with its post
/// arguments; in both cases with its cache token where it has one.
pub open spec fn package_invocation(
    types: TypeConfigView,
    ctx: EngineContextView,
    post: bool,
    name: Seq<char>,
    repo_path: Seq<char>,
    p: PackageView,
) -> Result<InvocationView, ErrorKind> {
    invocation_for(
        types,
        ctx,
        post,
        p.kind,
        name,
        repo_path,
        p.etag,
        p.cwd,
        if post {
            p.post_args
        } else {
            p.args
        },
    )
}

/// The command whose run adds a package, or why there is none.
pub open spec fn planned_add(
    repo: RepoConfigView,
    ctx: EngineContextView,
    name: Seq<char>,
    kind: Seq<char>,
    args: Seq<Seq<char>>,
    cwd: Option<Seq<char>>,
) -> Result<InvocationView, ErrorKind> {
    if repo.packages.contains_key(name) {
        Err(ErrorKind::AlreadyExists)
    } else {
        invocation_for(repo.types, ctx, false, kind, name, repo.path, None, cwd, args)
    }
}

/// The command of one of the scripts of a registered package, or why there is none.
pub open spec fn planned_run(
    repo: RepoConfigView,
    ctx: EngineContextView,
    post: bool,
    name: Seq<char>,
) -> Result<InvocationView, ErrorKind> {
    if !repo.packages.contains_key(name) {
        Err(ErrorKind::NotFound)
    } else {
        package_invocation(repo.types, ctx, post, name, repo.path, repo.packages[name])
    }
}

/// The packages of one repository.
pub struct RepoConfig {
    /// Package name to the package.
    pub packages: Registry<Package>,
    /// The types that the packages name.
    pub type_config: TypeConfig,
    /// The repository's directory.
    pub path: String,
}

/// A repository's registry as plain values: its packages, the types they name, its directory.
pub struct RepoConfigView {
    pub packages: Map<Seq<char>, PackageView>,
    pub types: TypeConfigView,
    pub path: Seq<char>,
}

impl View for RepoConfig {
    type V = RepoConfigView;

    open spec fn view(&self) -> RepoConfigView {
        RepoConfigView { packages: self.packages@, types: self.type_config@, path: self.path@ }
    }
}

impl RepoConfig {
    /// The registry of the repository at `path`, with no packages yet.
    pub fn new(path: String, type_config: TypeConfig) -> (r: Self)
        ensures
            r.packages@ == Map::<Seq<char>, PackageView>::empty(),
            r.path@ == path@,
            r.type_config == type_config,
    {
        RepoConfig { packages: Registry::new(), type_config, path }
    }

    /// The stored form: the packages in key order. Read back, it gives the same packages.
    pub fn to_toml_config(&self) -> (t: TomlRepoConfig)
        ensures
            lists(package_rows(t.packages@), self.packages@),
            bindings(package_rows(t.packages@)) == self.packages@,
    {
        let mut rows: Vec<(String, TomlPackage)> = Vec::new();
        let n = self.packages.len();
        let mut i: usize = 0;
        while i < n
            invariant
                i <= n,
                n == self.packages.listing().len(),
                package_rows(rows@) == self.packages.listing().take(i as int),
            decreases n - i,
        {
            let e = self.packages.entry_at(i);
            let ghost before = rows@;
            let stored = TomlPackage {
                kind: e.value.kind.clone(),
                args: copy_texts(&e.value.args),
                post_args: copy_texts(&e.value.post_args),
                etag: copy_opt_text(&e.value.etag),
                cwd: copy_opt_text(&e.value.cwd),
            };
            rows.push((e.name.clone(), stored));
            assert(before.len() == package_rows(before).len());
            assert forall|k: int| 0 <= k <= i implies package_rows(rows@)[k] == self.packages.listing()[k] by {
                if k < i {
                    assert(package_rows(before)[k] == self.packages.listing().take(i as int)[k]);
                }
            }
            assert(package_rows(rows@) =~= self.packages.listing().take(i + 1));
            i += 1;
        }
        assert(self.packages.listing().take(n as int) =~= self.packages.listing());
        proof {
            lemma_listing_round_trip(package_rows(rows@), self.packages@);
        }
        TomlRepoConfig { packages: rows }
    }

    /// The command whose run adds a package: the script of its type, without a cache token.
    /// Fails where the name is taken, or the type or its shell is not registered.
    pub fn plan_add(
        &self,
        ctx: &EngineContext,
        name: &str,
        kind: &str,
        args: &Vec<String>,
        cwd: &Option<String>,
    ) -> (r: Result<Invocation, ErrorKind>)
        ensures
            is_invocation(r, planned_add(self@, ctx@, name@, kind@, texts(args@), opt_text(*cwd))),
    {
        if self.packages.contains(name) {
            return Err(ErrorKind::AlreadyExists);
        }
        self.type_config.build_invocation(ctx, false, kind, name, self.path.as_str(), &None, cwd, args)
    }

    /// Registers a package after the run that adds it. Fails where the name is taken or the run
    /// failed, and then changes nothing. Says whether the post script is due.
    pub fn add(
        &mut self,
        name: String,
        kind: String,
        args: Vec<String>,
        post_args: Vec<String>,
        cwd: Option<String>,
        run: Result<Vec<u8>, ErrorKind>,
    ) -> (r: Result<bool, ErrorKind>)
        ensures
            final(self).packages@ == after_add(
                old(self).packages@,
                name@,
                PackageView {
                    kind: kind@,
                    args: texts(args@),
                    post_args: texts(post_args@),
                    etag: None,
                    cwd: opt_text(cwd),
                },
                run_token(run),
            ),
            r == add_result(old(self).packages@, name@, run_token(run)),
            final(self).path == old(self).path,
            final(self).type_config == old(self).type_config,
    {
        if self.packages.contains(name.as_str()) {
            return Err(ErrorKind::AlreadyExists);
        }
        let token = match run {
            Ok(stdout) => match decode_output(stdout) {
                Ok(token) => token,
                Err(e) => {
                    return Err(e);
                },
            },
            Err(e) => {
                return Err(e);
            },
        };
        let mut package = Package::new(kind, args, post_args, cwd);
        let set = package.record(token);
        self.packages.insert(name, package);
        Ok(set)
    }

    /// The command of one of the scripts of a registered package.
    fn plan_run(&self, ctx: &EngineContext, name: &str, post: bool) -> (r: Result<Invocation, ErrorKind>)
        ensures
            is_invocation(r, planned_run(self@, ctx@, post, name@)),
    {
        let package = match self.packages.get(name) {
            Some(package) => package,
            None => {
                return Err(ErrorKind::NotFound);
            },
        };
        let args = if post {
            &package.post_args
        } else {
            &package.args
        };
        self.type_config.build_invocation(
            ctx,
            post,
            package.kind.as_str(),
            name,
            self.path.as_str(),
            &package.etag,
            &package.cwd,
            args,
        )
    }

    /// The command whose run updates a package: the script of its type with the arguments it
    /// was added with, and with its cache token where it has one.
    pub fn plan_update(&self, ctx: &EngineContext, name: &str) -> (r: Result<Invocation, ErrorKind>)
        ensures
            is_invocation(r, planned_run(self@, ctx@, false, name@)),
    {
        self.plan_run(ctx, name, false)
    }

    /// The command of the post script of a package, which runs once after a run gave the
    /// package a new cache token: the post script of its type with the package's post
    /// arguments and its cache token.
    pub fn plan_post(&self, ctx: &EngineContext, name: &str) -> (r: Result<Invocation, ErrorKind>)
        ensures
            is_invocation(r, planned_run(self@, ctx@, true, name@)),
    {
        self.plan_run(ctx, name, true)
    }

    /// Takes in the run that updates a package. A run that printed nothing changes nothing; one
    /// that printed a token makes it the package's cache token, and the post script is due; a
    /// run that failed changes nothing. Says whether the post script is due.
    pub fn update(&mut self, name: &str, run: Result<Vec<u8>, ErrorKind>) -> (r: Result<bool, ErrorKind>)
        ensures
            final(self).packages@ == after_update(old(self).packages@, name@, run_token(run)),
            r == update_result(old(self).packages@, name@, run_token(run)),
            final(self).path == old(self).path,
            final(self).type_config == old(self).type_config,
    {
        if !self.packages.contains(name) {
            return Err(ErrorKind::NotFound);
        }
        let token = match run {
            Ok(stdout) => match decode_output(stdout) {
                Ok(token) => token,
                Err(e) => {
                    return Err(e);
                },
            },
            Err(e) => {
                return Err(e);
            },
        };
        let ghost before = self.packages@;
        match self.packages.remove(name) {
            Some(package) => {
                let mut package = package;
                let set = package.record(token);
                self.packages.insert(name.to_owned(), package);
                assert(self.packages@ =~= before.insert(name@, with_token(before[name@], token@)));
                Ok(set)
            },
            None => Err(ErrorKind::NotFound),
        }
    }

    /// The packages that an update of all packages goes through, in order.
    pub fn update_all(&self) -> (names: Vec<String>)
        ensures
            names@.len() == self.packages.listing().len(),
            forall|i: int| 0 <= i < names@.len() ==> (#[trigger] names@[i])@ == self.packages.listing()[i].0,
            lists(self.packages.listing(), self.packages@),
    {
        self.packages.names()
    }

    /// What has to go when the package `name` is removed: the directory or file of that name
    /// in the repository. Nothing where no such package is registered.
    pub fn removal_target(&self, name: &str) -> (r: Option<String>)
        ensures
            r is Some <==> self.packages@.contains_key(name@),
            r is Some ==> r.unwrap()@ == joined_path(self.path@, name@),
    {
        if self.packages.contains(name) {
            Some(join(self.path.as_str(), name))
        } else {
            None
        }
    }

    /// Settles the removal of one package once its files were dealt with.
    pub fn remove(&mut self, name: &str, outcome: RemovalOutcome) -> (report: RemovalReport)
        ensures
            final(self).packages@ == after_removal(old(self).packages@, name@, outcome),
            report == removal_report(old(self).packages@, name@, outcome),
            final(self).path == old(self).path,
            final(self).type_config == old(self).type_config,
    {
        settle_removal(&mut self.packages, name, outcome)
    }

    /// Drops packages from the registry and leaves their files alone. Says for each name
    /// whether a package went with it.
    pub fn remove_registry(&mut self, names: Vec<String>) -> (dropped: Vec<bool>)
        ensures
            final(self).packages@ == old(self).packages@.remove_keys(texts(names@).to_set()),
            final(self).path == old(self).path,
            final(self).type_config == old(self).type_config,
            dropped@.len() == names@.len(),
            forall|i: int|
                0 <= i < names@.len() ==> (#[trigger] dropped@[i] <==> old(self).packages@.contains_key(
                    names@[i]@,
                ) && forall|j: int| 0 <= j < i ==> names@[j]@ != names@[i]@),
    {
        self.packages.remove_all(&names)
    }

    /// Takes the cache token from every package, so that the next run of each starts afresh.
    pub fn remove_etag(&mut self)
        ensures
            final(self).packages@.dom() == old(self).packages@.dom(),
            forall|k: Seq<char>| #[trigger]
                old(self).packages@.contains_key(k) ==> final(self).packages@[k] == without_token(
                    old(self).packages@[k],
                ),
            final(self).path == old(self).path,
            final(self).type_config == old(self).type_config,
    {
        let n = self.packages.len();
        let ghost start = self.packages.listing();
        let ghost start_map = self.packages@;
        let mut i: usize = 0;
        while i < n
            invariant
                i <= n,
                n == start.len(),
                self.packages.listing().len() == n,
                lists(self.packages.listing(), self.packages@),
                forall|k: int| 0 <= k < n ==> (#[trigger] self.packages.listing()[k]).0 == start[k].0,
                forall|k: int| 0 <= k < i ==> (#[trigger] self.packages.listing()[k]).1 == without_token(start[k].1),
                forall|k: int| i <= k < n ==> (#[trigger] self.packages.listing()[k]).1 == start[k].1,
                self.path == old(self).path,
                self.type_config == old(self).type_config,
            decreases n - i,
        {
            let mut package = self.packages.entry_at(i).value.duplicate();
            package.etag = None;
            self.packages.set_value_at(i, package);
            i += 1;
        }
        proof {
            let end = self.packages.listing();
            let end_map = self.packages@;
            assert forall|k: Seq<char>| #[trigger] start_map.contains_key(k) implies end_map.contains_key(k)
                && end_map[k] == without_token(start_map[k]) by {
                let j = choose|j: int| 0 <= j < start.len() && #[trigger] start[j].0 == k;
                assert(end[j].0 == k);
            }
            assert forall|k: Seq<char>| #[trigger] end_map.contains_key(k) implies start_map.contains_key(k) by {
                let j = choose|j: int| 0 <= j < end.len() && #[trigger] end[j].0 == k;
                assert(start[j].0 == k);
            }
            assert(end_map.dom() =~= start_map.dom());
        }
    }

    /// Where the package `name` is copied from and to: from the repository to the directory
    /// `current_dir`, under its own name. Fails where no such package is registered.
    pub fn copy(&self, name: &str, current_dir: &str) -> (r: Result<CopyPlan, ErrorKind>)
        ensures
            match r {
                Ok(plan) => self.packages@.contains_key(name@) && plan.from@ == joined_path(
                    self.path@,
                    name@,
                ) && plan.to@ == joined_path(current_dir@, name@),
                Err(e) => !self.packages@.contains_key(name@) && e == ErrorKind::NotFound,
            },
    {
        if self.packages.contains(name) {
            Ok(CopyPlan { from: join(self.path.as_str(), name), to: join(current_dir, name) })
        } else {
            Err(ErrorKind::NotFound)
        }
    }
}

} // verus!
