use gpm::error::ErrorKind;
use gpm::main_config::get_repo_path;
use gpm::main_config::registry_file;
use gpm::main_config::Config;
use gpm::main_config::RepositoryProp;
use gpm::main_config::TomlConfig;
use gpm::main_config::TomlRepositoryProp;
use gpm::recovery::RemovalOutcome;
use gpm::recovery::RemovalReport;

fn stored(rows: &[(&str, &str)]) -> TomlConfig {
    TomlConfig {
        repositories: rows
            .iter()
            .map(|(n, p)| (n.to_string(), TomlRepositoryProp { path: p.to_string() }))
            .collect(),
    }
}

#[test]
fn new_config_has_no_repositories() {
    let c = Config::new();
    assert_eq!(c.repositories.len(), 0);
    assert_eq!(c.to_toml_config(), stored(&[]));
}

#[test]
fn repository_prop_holds_its_path() {
    assert_eq!(RepositoryProp::new("/abs/tools".to_string()).path, "/abs/tools");
}

#[test]
fn add_then_remove_repository() {
    let mut c = Config::new();
    let new = c.plan_add("tools", "/abs/tools").unwrap();
    assert_eq!(new.dir, "/abs/tools");
    assert_eq!(new.registry_file, "/abs/tools/version.toml");
    assert_eq!(c.add("tools".to_string(), "/abs/tools".to_string()), Ok(()));
    assert_eq!(c.to_toml_config(), stored(&[("tools", "/abs/tools")]));
    assert_eq!(c.removal_target("tools"), Some("/abs/tools".to_string()));
    assert_eq!(c.remove("tools", RemovalOutcome::Deleted), RemovalReport::Removed);
    assert_eq!(c.repositories.len(), 0);
    assert_eq!(c.to_toml_config(), stored(&[]));
}

#[test]
fn add_of_taken_repository_name_fails() {
    let mut c = Config::new();
    assert_eq!(c.add("tools".to_string(), "/abs/tools".to_string()), Ok(()));
    assert_eq!(c.plan_add("tools", "/other"), Err(ErrorKind::AlreadyExists));
    assert_eq!(c.add("tools".to_string(), "/other".to_string()), Err(ErrorKind::AlreadyExists));
    assert_eq!(c.to_toml_config(), stored(&[("tools", "/abs/tools")]));
}

#[test]
fn get_finds_registered_repositories_only() {
    let mut c = Config::new();
    c.add("tools".to_string(), "/abs/tools".to_string()).unwrap();
    assert_eq!(c.get("tools"), Ok(&RepositoryProp::new("/abs/tools".to_string())));
    assert_eq!(c.get("missing"), Err(ErrorKind::NotFound));
    assert_eq!(get_repo_path(&c, "tools"), Ok("/abs/tools".to_string()));
    assert_eq!(get_repo_path(&c, "missing"), Err(ErrorKind::NotFound));
}

#[test]
fn registry_file_lies_in_the_repository() {
    assert_eq!(registry_file("/abs/tools"), "/abs/tools/version.toml");
}

#[test]
fn removal_of_unknown_repository_is_reported() {
    let mut c = Config::new();
    c.add("tools".to_string(), "/abs/tools".to_string()).unwrap();
    assert_eq!(c.removal_target("other"), None);
    assert_eq!(c.remove("other", RemovalOutcome::Deleted), RemovalReport::NotFound);
    assert_eq!(c.repositories.len(), 1);
}

#[test]
fn failed_removal_keeps_repository_unless_accepted() {
    let mut c = Config::new();
    c.add("a".to_string(), "/a".to_string()).unwrap();
    c.add("b".to_string(), "/b".to_string()).unwrap();
    assert_eq!(c.remove("a", RemovalOutcome::Kept), RemovalReport::Kept);
    assert_eq!(c.to_toml_config(), stored(&[("a", "/a"), ("b", "/b")]));
    assert_eq!(c.remove("a", RemovalOutcome::Orphaned), RemovalReport::RegistryOnly);
    assert_eq!(c.to_toml_config(), stored(&[("b", "/b")]));
}

#[test]
fn remove_registry_drops_repositories() {
    let mut c = Config::new();
    for n in ["a", "b", "c"] {
        c.add(n.to_string(), format!("/{n}")).unwrap();
    }
    let dropped = c.remove_registry(vec!["c".to_string(), "nope".to_string(), "a".to_string(), "a".to_string()]);
    assert_eq!(dropped, vec![true, false, true, false]);
    assert_eq!(c.to_toml_config(), stored(&[("b", "/b")]));
}

#[test]
fn stored_repositories_are_sorted_by_name() {
    let mut c = Config::new();
    for n in ["zeta", "alpha", "Mid", "beta"] {
        c.add(n.to_string(), format!("/r/{n}")).unwrap();
    }
    assert_eq!(
        c.to_toml_config(),
        stored(&[("Mid", "/r/Mid"), ("alpha", "/r/alpha"), ("beta", "/r/beta"), ("zeta", "/r/zeta")])
    );
}

#[test]
fn stored_repositories_round_trip() {
    let mut c = Config::new();
    for n in ["zeta", "alpha", "beta"] {
        c.add(n.to_string(), format!("/r/{n}")).unwrap();
    }
    let t = c.to_toml_config();
    let back = t.to_config();
    assert_eq!(back.to_toml_config(), t);
    for n in ["zeta", "alpha", "beta"] {
        assert_eq!(back.get(n), c.get(n));
    }
}

#[test]
fn stored_repositories_are_read_in_any_order() {
    let a = stored(&[("b", "/b"), ("a", "/a"), ("c", "/c")]).to_config();
    let b = stored(&[("c", "/c"), ("b", "/b"), ("a", "/a")]).to_config();
    assert_eq!(a.to_toml_config(), b.to_toml_config());
    assert_eq!(a.to_toml_config(), stored(&[("a", "/a"), ("b", "/b"), ("c", "/c")]));
}

#[test]
fn later_stored_repository_counts() {
    let c = stored(&[("a", "/first"), ("b", "/b"), ("a", "/second")]).to_config();
    assert_eq!(c.to_toml_config(), stored(&[("a", "/second"), ("b", "/b")]));
}
