use gpm::registry::Registry;
use gpm::type_config::TypeProp;

fn prop(ext: &str) -> TypeProp {
    TypeProp::new(ext.to_string(), "bash".to_string())
}

fn names(r: &Registry<TypeProp>) -> Vec<String> {
    r.names()
}

#[test]
fn new_registry_is_empty() {
    let r: Registry<TypeProp> = Registry::new();
    assert_eq!(r.len(), 0);
    assert!(!r.contains("a"));
    assert!(r.get("a").is_none());
    assert!(names(&r).is_empty());
}

#[test]
fn insert_adds_a_binding() {
    let mut r = Registry::new();
    assert!(r.insert("git".to_string(), prop("sh")));
    assert_eq!(r.len(), 1);
    assert!(r.contains("git"));
    assert_eq!(r.get("git"), Some(&prop("sh")));
    assert!(!r.contains("gi"));
}

#[test]
fn insert_of_taken_name_changes_nothing() {
    let mut r = Registry::new();
    assert!(r.insert("git".to_string(), prop("sh")));
    assert!(!r.insert("git".to_string(), prop("ps1")));
    assert_eq!(r.len(), 1);
    assert_eq!(r.get("git"), Some(&prop("sh")));
}

#[test]
fn names_come_in_key_order() {
    let mut r = Registry::new();
    for n in ["zip", "git", "exe", "local", "Zip", ""] {
        assert!(r.insert(n.to_string(), prop(n)));
    }
    assert_eq!(names(&r), vec!["", "Zip", "exe", "git", "local", "zip"]);
    for (i, n) in names(&r).iter().enumerate() {
        let e = r.entry_at(i);
        assert_eq!(&e.name, n);
        assert_eq!(e.value.ext, *n);
    }
}

#[test]
fn remove_takes_the_binding_out() {
    let mut r = Registry::new();
    r.insert("a".to_string(), prop("1"));
    r.insert("b".to_string(), prop("2"));
    r.insert("c".to_string(), prop("3"));
    assert_eq!(r.remove("b"), Some(prop("2")));
    assert_eq!(names(&r), vec!["a", "c"]);
    assert_eq!(r.remove("b"), None);
    assert_eq!(names(&r), vec!["a", "c"]);
    assert_eq!(r.get("a"), Some(&prop("1")));
    assert_eq!(r.get("c"), Some(&prop("3")));
}

#[test]
fn remove_all_drops_each_name_once() {
    let mut r = Registry::new();
    for n in ["a", "b", "c", "d"] {
        r.insert(n.to_string(), prop(n));
    }
    let dropped = r.remove_all(&vec!["b".to_string(), "x".to_string(), "b".to_string(), "d".to_string()]);
    assert_eq!(dropped, vec![true, false, false, true]);
    assert_eq!(names(&r), vec!["a", "c"]);
}

#[test]
fn set_value_at_rebinds_the_name() {
    let mut r = Registry::new();
    for n in ["a", "b", "c"] {
        r.insert(n.to_string(), prop(n));
    }
    r.set_value_at(1, prop("new"));
    assert_eq!(names(&r), vec!["a", "b", "c"]);
    assert_eq!(r.get("b"), Some(&prop("new")));
    assert_eq!(r.get("a"), Some(&prop("a")));
    assert_eq!(r.get("c"), Some(&prop("c")));
}
