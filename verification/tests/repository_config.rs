use gpm::command::Invocation;
use gpm::error::ErrorKind;
use gpm::path::EngineContext;
use gpm::recovery::RemovalOutcome;
use gpm::recovery::RemovalReport;
use gpm::repository_config::CopyPlan;
use gpm::repository_config::Package;
use gpm::repository_config::RepoConfig;
use gpm::repository_config::TomlPackage;
use gpm::repository_config::TomlRepoConfig;
use gpm::type_config::TypeConfig;

fn strings(v: &[&str]) -> Vec<String> {
    v.iter().map(|s| s.to_string()).collect()
}

fn ctx() -> EngineContext {
    EngineContext::new("/gpm/scripts".to_string(), "/gpm/repositories".to_string(), false)
}

fn types() -> TypeConfig {
    let mut t = TypeConfig::new(false);
    t.add("git".to_string(), "sh".to_string(), "bash".to_string()).unwrap();
    t.add("zip".to_string(), "py".to_string(), "bash".to_string()).unwrap();
    t
}

fn repo() -> RepoConfig {
    RepoConfig::new("/repos/tools".to_string(), types())
}

fn texts(inv: &Invocation) -> Vec<String> {
    inv.args.iter().map(|a| a.text.clone()).collect()
}

fn out(s: &str) -> Result<Vec<u8>, ErrorKind> {
    Ok(s.as_bytes().to_vec())
}

fn add(r: &mut RepoConfig, name: &str, kind: &str, run: Result<Vec<u8>, ErrorKind>) -> Result<bool, ErrorKind> {
    r.add(name.to_string(), kind.to_string(), strings(&["url"]), strings(&["after"]), None, run)
}

fn package(kind: &str, etag: Option<&str>) -> Package {
    Package {
        kind: kind.to_string(),
        args: strings(&["url"]),
        post_args: strings(&["after"]),
        etag: etag.map(|s| s.to_string()),
        cwd: None,
    }
}

#[test]
fn new_package_has_no_token() {
    let p = Package::new("git".to_string(), strings(&["a"]), strings(&["b"]), Some("/w".to_string()));
    assert_eq!(p.kind, "git");
    assert_eq!(p.args, strings(&["a"]));
    assert_eq!(p.post_args, strings(&["b"]));
    assert_eq!(p.etag, None);
    assert_eq!(p.cwd, Some("/w".to_string()));
}

#[test]
fn record_of_empty_output_changes_nothing() {
    let mut p = package("git", Some("old"));
    assert!(!p.record(String::new()));
    assert_eq!(p, package("git", Some("old")));
    let mut q = package("git", None);
    assert!(!q.record(String::new()));
    assert_eq!(q, package("git", None));
}

#[test]
fn record_of_output_sets_the_token() {
    let mut p = package("git", Some("old"));
    assert!(p.record("new".to_string()));
    assert_eq!(p, package("git", Some("new")));
    assert!(p.record("new".to_string()));
    assert_eq!(p, package("git", Some("new")));
}

#[test]
fn duplicate_is_equal() {
    let p = Package::new("git".to_string(), strings(&["a", "b"]), strings(&["c"]), Some("/w".to_string()));
    assert_eq!(p.duplicate(), p);
}

#[test]
fn new_repository_has_no_packages() {
    let r = repo();
    assert_eq!(r.packages.len(), 0);
    assert_eq!(r.path, "/repos/tools");
    assert_eq!(r.to_toml_config(), TomlRepoConfig { packages: Vec::new() });
    assert!(r.update_all().is_empty());
}

#[test]
fn add_runs_the_script_without_token() {
    let r = repo();
    let inv = r.plan_add(&ctx(), "pkg", "git", &strings(&["url"]), &None).unwrap();
    assert_eq!(inv.program, "bash");
    assert_eq!(inv.working_dir, "/repos/tools");
    assert_eq!(texts(&inv), strings(&["-c", "/gpm/scripts/git.sh", "-name", "pkg", "url"]));
    assert!(!texts(&inv).contains(&"-etag".to_string()));
}

#[test]
fn update_runs_the_script_with_token() {
    let mut r = repo();
    assert_eq!(add(&mut r, "pkg", "git", out("abc\n")), Ok(true));
    assert_eq!(r.packages.get("pkg"), Some(&package("git", Some("abc"))));
    let inv = r.plan_update(&ctx(), "pkg").unwrap();
    assert_eq!(texts(&inv), strings(&["-c", "/gpm/scripts/git.sh", "-name", "pkg", "-etag", "abc", "url"]));
}

#[test]
fn add_with_working_directory_passes_it_on() {
    let mut r = repo();
    let cwd = Some("/home/me/project".to_string());
    let inv = r.plan_add(&ctx(), "pkg", "git", &strings(&["url"]), &cwd).unwrap();
    assert_eq!(inv.working_dir, "/home/me/project");
    assert_eq!(
        texts(&inv),
        strings(&["-c", "/gpm/scripts/git.sh", "-name", "pkg", "-cwd", "/home/me/project", "url"])
    );
    let added = r.add("pkg".to_string(), "git".to_string(), strings(&["url"]), Vec::new(), cwd.clone(), out("t"));
    assert_eq!(added, Ok(true));
    let again = r.plan_update(&ctx(), "pkg").unwrap();
    assert_eq!(
        texts(&again),
        strings(&["-c", "/gpm/scripts/git.sh", "-name", "pkg", "-cwd", "/home/me/project", "-etag", "t", "url"])
    );
}

#[test]
fn add_of_unknown_type_fails() {
    let r = repo();
    assert_eq!(r.plan_add(&ctx(), "pkg", "exe", &Vec::new(), &None), Err(ErrorKind::UnknownType));
}

#[test]
fn add_without_output_registers_without_token() {
    let mut r = repo();
    assert_eq!(add(&mut r, "pkg", "git", out("")), Ok(false));
    assert_eq!(r.packages.get("pkg"), Some(&package("git", None)));
    assert_eq!(add(&mut r, "other", "git", out(" \n")), Ok(false));
    assert_eq!(r.packages.get("other"), Some(&package("git", None)));
}

#[test]
fn add_of_taken_package_name_fails() {
    let mut r = repo();
    assert_eq!(add(&mut r, "pkg", "git", out("one")), Ok(true));
    assert_eq!(r.plan_add(&ctx(), "pkg", "zip", &Vec::new(), &None), Err(ErrorKind::AlreadyExists));
    assert_eq!(add(&mut r, "pkg", "zip", out("two")), Err(ErrorKind::AlreadyExists));
    assert_eq!(r.packages.get("pkg"), Some(&package("git", Some("one"))));
    assert_eq!(r.packages.len(), 1);
}

#[test]
fn failed_add_registers_nothing() {
    let mut r = repo();
    assert_eq!(add(&mut r, "pkg", "git", Err(ErrorKind::ProcessSpawnFailure)), Err(ErrorKind::ProcessSpawnFailure));
    assert_eq!(add(&mut r, "pkg", "git", Ok(vec![0xff])), Err(ErrorKind::ProcessOutputDecodeFailure));
    assert_eq!(r.packages.len(), 0);
}

#[test]
fn update_without_output_changes_nothing() {
    let mut r = repo();
    add(&mut r, "pkg", "git", out("abc")).unwrap();
    add(&mut r, "bare", "git", out("")).unwrap();
    let before = r.to_toml_config();
    assert_eq!(r.update("pkg", out("")), Ok(false));
    assert_eq!(r.update("pkg", out("\n")), Ok(false));
    assert_eq!(r.update("bare", out("")), Ok(false));
    assert_eq!(r.to_toml_config(), before);
}

#[test]
fn update_with_output_replaces_the_token() {
    let mut r = repo();
    add(&mut r, "pkg", "git", out("abc")).unwrap();
    add(&mut r, "other", "zip", out("x")).unwrap();
    assert_eq!(r.update("pkg", out("  def\n")), Ok(true));
    assert_eq!(r.packages.get("pkg"), Some(&package("git", Some("def"))));
    assert_eq!(r.packages.get("other"), Some(&package("zip", Some("x"))));
    let post = r.plan_post(&ctx(), "pkg").unwrap();
    assert_eq!(post.script, "/gpm/scripts/git.post.sh");
    assert_eq!(texts(&post), strings(&["-c", "/gpm/scripts/git.post.sh", "-name", "pkg", "-etag", "def", "after"]));
}

#[test]
fn update_of_unknown_package_fails() {
    let mut r = repo();
    assert_eq!(r.plan_update(&ctx(), "pkg"), Err(ErrorKind::NotFound));
    assert_eq!(r.plan_post(&ctx(), "pkg"), Err(ErrorKind::NotFound));
    assert_eq!(r.update("pkg", out("abc")), Err(ErrorKind::NotFound));
    assert_eq!(r.packages.len(), 0);
}

#[test]
fn update_of_package_with_unknown_type_fails() {
    let mut r = repo();
    add(&mut r, "pkg", "exe", out("abc")).unwrap();
    assert_eq!(r.plan_update(&ctx(), "pkg"), Err(ErrorKind::UnknownType));
}

#[test]
fn failed_update_changes_nothing() {
    let mut r = repo();
    add(&mut r, "pkg", "git", out("abc")).unwrap();
    assert_eq!(r.update("pkg", Err(ErrorKind::ProcessSpawnFailure)), Err(ErrorKind::ProcessSpawnFailure));
    assert_eq!(r.update("pkg", Ok(vec![0xc0])), Err(ErrorKind::ProcessOutputDecodeFailure));
    assert_eq!(r.packages.get("pkg"), Some(&package("git", Some("abc"))));
}

#[test]
fn one_failed_update_leaves_the_others_updated() {
    let mut r = repo();
    for n in ["a", "b", "c", "d"] {
        add(&mut r, n, "git", out("old")).unwrap();
    }
    assert_eq!(r.update_all(), strings(&["a", "b", "c", "d"]));
    let runs = [out("new-a"), Err(ErrorKind::ProcessSpawnFailure), out("new-c"), out("")];
    let mut results = Vec::new();
    for (name, run) in r.update_all().iter().zip(runs) {
        results.push(r.update(name, run));
    }
    assert_eq!(results, vec![Ok(true), Err(ErrorKind::ProcessSpawnFailure), Ok(true), Ok(false)]);
    assert_eq!(r.packages.get("a"), Some(&package("git", Some("new-a"))));
    assert_eq!(r.packages.get("b"), Some(&package("git", Some("old"))));
    assert_eq!(r.packages.get("c"), Some(&package("git", Some("new-c"))));
    assert_eq!(r.packages.get("d"), Some(&package("git", Some("old"))));
}

#[test]
fn remove_etag_clears_every_token() {
    let mut r = repo();
    add(&mut r, "a", "git", out("1")).unwrap();
    add(&mut r, "b", "zip", out("")).unwrap();
    add(&mut r, "c", "git", out("3")).unwrap();
    r.remove_etag();
    assert_eq!(r.update_all(), strings(&["a", "b", "c"]));
    assert_eq!(r.packages.get("a"), Some(&package("git", None)));
    assert_eq!(r.packages.get("b"), Some(&package("zip", None)));
    assert_eq!(r.packages.get("c"), Some(&package("git", None)));
    let inv = r.plan_update(&ctx(), "a").unwrap();
    assert!(!texts(&inv).contains(&"-etag".to_string()));
}

#[test]
fn removal_of_a_package_goes_by_its_files() {
    let mut r = repo();
    add(&mut r, "pkg", "git", out("abc")).unwrap();
    assert_eq!(r.removal_target("pkg"), Some("/repos/tools/pkg".to_string()));
    assert_eq!(r.removal_target("other"), None);
    assert_eq!(r.remove("other", RemovalOutcome::Deleted), RemovalReport::NotFound);
    assert_eq!(r.remove("pkg", RemovalOutcome::Kept), RemovalReport::Kept);
    assert_eq!(r.packages.get("pkg"), Some(&package("git", Some("abc"))));
    assert_eq!(r.remove("pkg", RemovalOutcome::Deleted), RemovalReport::Removed);
    assert_eq!(r.packages.len(), 0);
    assert_eq!(r.path, "/repos/tools");
}

#[test]
fn one_failed_package_removal_leaves_the_others_removed() {
    let mut r = repo();
    for n in ["a", "b", "c"] {
        add(&mut r, n, "git", out(n)).unwrap();
    }
    let reports = vec![
        r.remove("a", RemovalOutcome::Deleted),
        r.remove("b", RemovalOutcome::Kept),
        r.remove("c", RemovalOutcome::Deleted),
    ];
    assert_eq!(reports, vec![RemovalReport::Removed, RemovalReport::Kept, RemovalReport::Removed]);
    assert_eq!(r.update_all(), strings(&["b"]));
    assert_eq!(r.packages.get("b"), Some(&package("git", Some("b"))));
}

#[test]
fn remove_registry_drops_packages() {
    let mut r = repo();
    for n in ["a", "b", "c"] {
        add(&mut r, n, "git", out(n)).unwrap();
    }
    assert_eq!(r.remove_registry(strings(&["c", "a", "zzz"])), vec![true, true, false]);
    assert_eq!(r.update_all(), strings(&["b"]));
}

#[test]
fn copy_goes_from_the_repository_to_the_current_directory() {
    let mut r = repo();
    add(&mut r, "pkg", "git", out("abc")).unwrap();
    assert_eq!(
        r.copy("pkg", "/home/me/work"),
        Ok(CopyPlan { from: "/repos/tools/pkg".to_string(), to: "/home/me/work/pkg".to_string() })
    );
    assert_eq!(r.copy("other", "/home/me/work"), Err(ErrorKind::NotFound));
    assert_eq!(r.packages.get("pkg"), Some(&package("git", Some("abc"))));
}

#[test]
fn stored_packages_round_trip() {
    let mut r = repo();
    add(&mut r, "zeta", "git", out("z")).unwrap();
    add(&mut r, "alpha", "zip", out("")).unwrap();
    r.add("mid".to_string(), "git".to_string(), Vec::new(), Vec::new(), Some("/w".to_string()), out("m")).unwrap();
    let stored = r.to_toml_config();
    let names: Vec<&str> = stored.packages.iter().map(|(n, _)| n.as_str()).collect();
    assert_eq!(names, vec!["alpha", "mid", "zeta"]);
    assert_eq!(
        stored.packages[1].1,
        TomlPackage {
            kind: "git".to_string(),
            args: Vec::new(),
            post_args: Vec::new(),
            etag: Some("m".to_string()),
            cwd: Some("/w".to_string()),
        }
    );
    let back = stored.to_config("/repos/tools".to_string(), types());
    assert_eq!(back.to_toml_config(), stored);
    assert_eq!(back.path, "/repos/tools");
    for n in ["alpha", "mid", "zeta"] {
        assert_eq!(back.packages.get(n), r.packages.get(n));
    }
}

#[test]
fn later_stored_package_counts() {
    let row = |kind: &str| TomlPackage {
        kind: kind.to_string(),
        args: Vec::new(),
        post_args: Vec::new(),
        etag: None,
        cwd: None,
    };
    let stored = TomlRepoConfig {
        packages: vec![("p".to_string(), row("git")), ("q".to_string(), row("zip")), ("p".to_string(), row("exe"))],
    };
    let r = stored.to_config("/r".to_string(), types());
    assert_eq!(r.update_all(), strings(&["p", "q"]));
    assert_eq!(r.packages.get("p").map(|p| p.kind.as_str()), Some("exe"));
}

#[test]
fn any_failure_of_the_run_is_handed_back() {
    let mut r = repo();
    add(&mut r, "pkg", "git", out("abc")).unwrap();
    for e in [ErrorKind::FilesystemFailure, ErrorKind::PersistenceFailure, ErrorKind::ProcessSpawnFailure] {
        assert_eq!(r.update("pkg", Err(e)), Err(e));
        assert_eq!(add(&mut r, "new", "git", Err(e)), Err(e));
    }
    assert_eq!(r.update_all(), strings(&["pkg"]));
    assert_eq!(r.packages.get("pkg"), Some(&package("git", Some("abc"))));
}
