use gpm::path::resolve_repository_path;
use gpm::path::EngineContext;

fn ctx() -> EngineContext {
    EngineContext::new("/home/me/.gpm/scripts".to_string(), "/home/me/.gpm/repositories".to_string(), false)
}

#[test]
fn context_holds_what_it_was_made_with() {
    let c = ctx();
    assert_eq!(c.script_root, "/home/me/.gpm/scripts");
    assert_eq!(c.repositories_root, "/home/me/.gpm/repositories");
    assert!(!c.windows);
}

#[test]
fn repository_without_path_goes_under_the_root() {
    assert_eq!(resolve_repository_path(&ctx(), "/work", "tools", &None), "/home/me/.gpm/repositories/tools");
}

#[test]
fn repository_path_is_taken_from_the_current_directory() {
    assert_eq!(resolve_repository_path(&ctx(), "/work/here", "tools", &Some("sub/dir".to_string())), "/work/here/sub/dir");
}

#[test]
fn repository_path_is_cleaned() {
    assert_eq!(
        resolve_repository_path(&ctx(), "/work/here", "tools", &Some("../there/./x//y/..".to_string())),
        "/work/there/x"
    );
}

#[test]
fn absolute_repository_path_stands_alone() {
    assert_eq!(resolve_repository_path(&ctx(), "/work/here", "tools", &Some("/abs/tools".to_string())), "/abs/tools");
}

#[test]
fn home_layout() {
    let home = gpm::path::Home::under("/home/me", false);
    assert_eq!(home.root, "/home/me/.gpm");
    assert_eq!(home.config_file, "/home/me/.gpm/config.toml");
    assert_eq!(home.types_file, "/home/me/.gpm/types.toml");
    assert_eq!(home.context, ctx());
    assert_eq!(
        home.directories(),
        vec!["/home/me/.gpm", "/home/me/.gpm/repositories", "/home/me/.gpm/scripts"]
    );
    assert!(gpm::path::Home::under("/home/me", true).context.windows);
}
