use gpm::recovery::answer_is_yes;
use gpm::recovery::interpret_answer;
use gpm::recovery::reconcile_on_failure;
use gpm::recovery::removal_outcome;
use gpm::recovery::settle_removal;
use gpm::recovery::RemovalOutcome;
use gpm::recovery::RemovalReport;
use gpm::registry::Registry;
use gpm::type_config::TypeProp;

fn registry(names: &[&str]) -> Registry<TypeProp> {
    let mut r = Registry::new();
    for n in names {
        assert!(r.insert(n.to_string(), TypeProp::new(n.to_string(), "bash".to_string())));
    }
    r
}

#[test]
fn only_y_is_a_yes() {
    assert!(answer_is_yes("y"));
    assert!(!answer_is_yes("n"));
    assert!(!answer_is_yes("yes"));
    assert!(!answer_is_yes("Y"));
    assert!(!answer_is_yes(""));
    assert!(!answer_is_yes(" y"));
}

#[test]
fn answers_are_trimmed_and_lowered() {
    assert!(interpret_answer("y\n"));
    assert!(interpret_answer("  Y \r\n"));
    assert!(!interpret_answer("n\n"));
    assert!(!interpret_answer("N"));
    assert!(!interpret_answer("\n"));
    assert!(!interpret_answer("yes\n"));
    assert!(!interpret_answer("maybe"));
}

#[test]
fn no_answer_keeps_the_entry() {
    assert!(!reconcile_on_failure(&None));
    assert!(!reconcile_on_failure(&Some("n\n".to_string())));
    assert!(reconcile_on_failure(&Some("y\n".to_string())));
}

#[test]
fn outcome_follows_attempt_and_answer() {
    assert_eq!(removal_outcome(true, &None), RemovalOutcome::Deleted);
    assert_eq!(removal_outcome(true, &Some("n".to_string())), RemovalOutcome::Deleted);
    assert_eq!(removal_outcome(false, &Some("y".to_string())), RemovalOutcome::Orphaned);
    assert_eq!(removal_outcome(false, &Some("n".to_string())), RemovalOutcome::Kept);
    assert_eq!(removal_outcome(false, &Some("".to_string())), RemovalOutcome::Kept);
    assert_eq!(removal_outcome(false, &None), RemovalOutcome::Kept);
}

#[test]
fn settle_reports_what_was_done() {
    let mut r = registry(&["a", "b", "c"]);
    assert_eq!(settle_removal(&mut r, "a", RemovalOutcome::Deleted), RemovalReport::Removed);
    assert_eq!(settle_removal(&mut r, "b", RemovalOutcome::Orphaned), RemovalReport::RegistryOnly);
    assert_eq!(settle_removal(&mut r, "c", RemovalOutcome::Kept), RemovalReport::Kept);
    assert_eq!(settle_removal(&mut r, "x", RemovalOutcome::Deleted), RemovalReport::NotFound);
    assert_eq!(settle_removal(&mut r, "a", RemovalOutcome::Kept), RemovalReport::NotFound);
    assert_eq!(r.names(), vec!["c"]);
}

#[test]
fn one_failed_removal_leaves_the_others_removed() {
    let mut r = registry(&["a", "b", "c", "d", "e"]);
    let targets = [
        ("a", RemovalOutcome::Deleted),
        ("c", RemovalOutcome::Kept),
        ("d", RemovalOutcome::Deleted),
        ("e", RemovalOutcome::Deleted),
    ];
    for (name, outcome) in targets {
        settle_removal(&mut r, name, outcome);
    }
    assert_eq!(r.names(), vec!["b", "c"]);
    assert_eq!(r.get("c"), Some(&TypeProp::new("c".to_string(), "bash".to_string())));
    assert_eq!(r.get("b"), Some(&TypeProp::new("b".to_string(), "bash".to_string())));
}

#[test]
fn one_failed_removal_accepted_by_the_user_drops_the_entry() {
    let mut r = registry(&["a", "b", "c"]);
    let targets = [
        ("a", RemovalOutcome::Deleted),
        ("b", RemovalOutcome::Orphaned),
        ("c", RemovalOutcome::Deleted),
    ];
    for (name, outcome) in targets {
        settle_removal(&mut r, name, outcome);
    }
    assert!(r.names().is_empty());
}
