//! The registry of repositories: each name with the directory that holds its packages.

use vstd::prelude::*;
use crate::error::ErrorKind;
use crate::path::join;
use crate::path::joined_path;
use crate::recovery::after_removal;
use crate::recovery::removal_report;
use crate::recovery::settle_removal;
use crate::recovery::RemovalOutcome;
use crate::recovery::RemovalReport;
use crate::registry::bindings;
use crate::registry::lemma_bindings_step;
use crate::registry::lemma_listing_round_trip;
use crate::registry::lists;
use crate::registry::Registry;
use crate::text::texts;

verus! {

/// A repository: the absolute path of its directory.
#[derive(Debug, Clone, PartialEq, Eq)]
pub struct RepositoryProp {
    pub path: String,
}

impl View for RepositoryProp {
    type V = Seq<char>;

    open spec fn view(&self) -> Seq<char> {
        self.path@
    }
}

impl RepositoryProp {
    /// The repository whose directory is `path`.
    pub fn new(path: String) -> (r: Self)
        ensures
            r@ == path@,
    {
        RepositoryProp { path }
    }
}

/// A repository as it is stored.
#[derive(Debug, Clone, PartialEq, Eq)]
pub struct TomlRepositoryProp {
    pub path: String,
}

/// The repository registry as it is stored: each name with its repository.
#[derive(Debug, Clone, PartialEq, Eq)]
pub struct TomlConfig {
    pub repositories: Vec<(String, TomlRepositoryProp)>,
}

/// The stored repositories as a listing.
pub open spec fn repository_rows(v: Seq<(String, TomlRepositoryProp)>) -> Seq<(Seq<char>, Seq<char>)> {
    Seq::new(v.len(), |i: int| (v[i].0@, v[i].1.path@))
}

impl TomlConfig {
    /// The registry that the stored form stands for. Of two entries with one name the later
    /// one counts.
    pub fn to_config(&self) -> (r: Config)
        ensures
            r@ == bindings(repository_rows(self.repositories@)),
    {
        let mut repositories: Registry<RepositoryProp> = Registry::new();
        let ghost rows = repository_rows(self.repositories@);
        let mut i: usize = self.repositories.len();
        assert(rows.take(i as int) =~= rows);
        assert(bindings(rows).union_prefer_right(repositories@) =~= bindings(rows));
        while i > 0
            invariant
                i <= self.repositories@.len(),
                rows == repository_rows(self.repositories@),
                bindings(rows) == bindings(rows.take(i as int)).union_prefer_right(repositories@),
            decreases i,
        {
            proof {
                lemma_bindings_step(rows, i as int, repositories@);
            }
            i -= 1;
            let row = &self.repositories[i];
            repositories.insert(row.0.clone(), RepositoryProp::new(row.1.path.clone()));
        }
        assert(bindings(rows.take(0)).union_prefer_right(repositories@) =~= repositories@);
        Config { repositories }
    }
}

/// What has to exist before a repository is registered: its directory and, inside it, the
/// file of its package registry.
#[derive(Debug, Clone, PartialEq, Eq)]
pub struct NewRepository {
    pub dir: String,
    pub registry_file: String,
}

/// The name of the file that holds a repository's package registry.
pub open spec fn registry_file_name() -> Seq<char> {
    "version.toml"@
}

/// The file that holds the package registry of the repository at `path`.
pub fn registry_file(path: &str) -> (r: String)
    ensures
        r@ == joined_path(path@, registry_file_name()),
{
    join(path, "version.toml")
}

/// The repositories.
pub struct Config {
    /// Repository name to the repository.
    pub repositories: Registry<RepositoryProp>,
}

impl View for Config {
    type V = Map<Seq<char>, Seq<char>>;

    open spec fn view(&self) -> Map<Seq<char>, Seq<char>> {
        self.repositories@
    }
}

impl Config {
    /// No repositories.
    pub fn new() -> (r: Self)
        ensures
            r@ == Map::<Seq<char>, Seq<char>>::empty(),
    {
        Config { repositories: Registry::new() }
    }

    /// The stored form: the repositories in key order. Read back, it gives the same registry.
    pub fn to_toml_config(&self) -> (t: TomlConfig)
        ensures
            lists(repository_rows(t.repositories@), self@),
            bindings(repository_rows(t.repositories@)) == self@,
    {
        let mut rows: Vec<(String, TomlRepositoryProp)> = Vec::new();
        let n = self.repositories.len();
        let mut i: usize = 0;
        while i < n
            invariant
                i <= n,
                n == self.repositories.listing().len(),
                repository_rows(rows@) == self.repositories.listing().take(i as int),
            decreases n - i,
        {
            let e = self.repositories.entry_at(i);
            let ghost before = rows@;
            rows.push((e.name.clone(), TomlRepositoryProp { path: e.value.path.clone() }));
            assert(before.len() == repository_rows(before).len());
            assert forall|k: int| 0 <= k <= i implies repository_rows(rows@)[k]
                == self.repositories.listing()[k] by {
                if k < i {
                    assert(repository_rows(before)[k] == self.repositories.listing().take(i as int)[k]);
                }
            }
            assert(repository_rows(rows@) =~= self.repositories.listing().take(i + 1));
            i += 1;
        }
        assert(self.repositories.listing().take(n as int) =~= self.repositories.listing());
        proof {
            lemma_listing_round_trip(repository_rows(rows@), self@);
        }
        TomlConfig { repositories: rows }
    }

    /// What has to be created for a new repository at `path`. Fails where the name is taken.
    pub fn plan_add(&self, name: &str, path: &str) -> (r: Result<NewRepository, ErrorKind>)
        ensures
            match r {
                Ok(new) => !self@.contains_key(name@) && new.dir@ == path@ && new.registry_file@
                    == joined_path(path@, registry_file_name()),
                Err(e) => self@.contains_key(name@) && e == ErrorKind::AlreadyExists,
            },
    {
        if self.repositories.contains(name) {
            return Err(ErrorKind::AlreadyExists);
        }
        Ok(NewRepository { dir: path.to_owned(), registry_file: registry_file(path) })
    }

    /// Registers the repository at `path`. Fails where the name is taken, and then changes
    /// nothing.
    pub fn add(&mut self, name: String, path: String) -> (r: Result<(), ErrorKind>)
        ensures
            match r {
                Ok(_) => !old(self)@.contains_key(name@) && final(self)@ == old(self)@.insert(
                    name@,
                    path@,
                ),
                Err(e) => old(self)@.contains_key(name@) && e == ErrorKind::AlreadyExists && final(self)@ == old(self)@,
            },
    {
        if self.repositories.insert(name, RepositoryProp::new(path)) {
            Ok(())
        } else {
            Err(ErrorKind::AlreadyExists)
        }
    }

    /// The directory of the repository `name`.
    pub fn get(&self, name: &str) -> (r: Result<&RepositoryProp, ErrorKind>)
        ensures
            match r {
                Ok(repo) => self@.contains_key(name@) && repo@ == self@[name@],
                Err(e) => !self@.contains_key(name@) && e == ErrorKind::NotFound,
            },
    {
        match self.repositories.get(name) {
            Some(repo) => Ok(repo),
            None => Err(ErrorKind::NotFound),
        }
    }

    /// The directory that has to go when the repository `name` is removed, or nothing where no
    /// such repository is registered.
    pub fn removal_target(&self, name: &str) -> (r: Option<String>)
        ensures
            r is Some <==> self@.contains_key(name@),
            r is Some ==> r.unwrap()@ == self@[name@],
    {
        match self.repositories.get(name) {
            Some(repo) => Some(repo.path.clone()),
            None => None,
        }
    }

    /// Settles the removal of one repository once its directory was dealt with.
    pub fn remove(&mut self, name: &str, outcome: RemovalOutcome) -> (report: RemovalReport)
        ensures
            final(self)@ == after_removal(old(self)@, name@, outcome),
            report == removal_report(old(self)@, name@, outcome),
    {
        settle_removal(&mut self.repositories, name, outcome)
    }

    /// Drops repositories from the registry and leaves their directories alone. Says for each
    /// name whether a repository went with it.
    pub fn remove_registry(&mut self, names: Vec<String>) -> (dropped: Vec<bool>)
        ensures
            final(self)@ == old(self)@.remove_keys(texts(names@).to_set()),
            dropped@.len() == names@.len(),
            forall|i: int|
                0 <= i < names@.len() ==> (#[trigger] dropped@[i] <==> old(self)@.contains_key(names@[i]@)
                    && forall|j: int| 0 <= j < i ==> names@[j]@ != names@[i]@),
    {
        self.repositories.remove_all(&names)
    }
}

/// The directory of the repository `name`.
pub fn get_repo_path(config: &Config, name: &str) -> (r: Result<String, ErrorKind>)
    ensures
        match r {
            Ok(path) => config@.contains_key(name@) && path@ == config@[name@],
            Err(e) => !config@.contains_key(name@) && e == ErrorKind::NotFound,
        },
{
    match config.get(name) {
        Ok(repo) => Ok(repo.path.clone()),
        Err(e) => Err(e),
    }
}

} // verus!
