use vpn_router::cli::{choose_action, split_domains, Action};

fn strings(v: &[&str]) -> Vec<String> {
    v.iter().map(|s| s.to_string()).collect()
}

#[test]
fn splits_on_commas_without_trimming() {
    assert_eq!(split_domains("a.com,b.com"), strings(&["a.com", "b.com"]));
    assert_eq!(split_domains("a.com, b.com"), strings(&["a.com", " b.com"]));
    assert_eq!(split_domains("a,,b"), strings(&["a", "", "b"]));
    assert_eq!(split_domains(""), strings(&[""]));
    assert_eq!(split_domains("solo.example"), strings(&["solo.example"]));
    assert_eq!(split_domains("dup.com,dup.com"), strings(&["dup.com", "dup.com"]));
}

#[test]
fn list_wins_over_everything() {
    assert!(matches!(
        choose_action(true, Some("a.com"), Some("b.com")),
        Action::List
    ));
}

#[test]
fn add_wins_over_remove() {
    match choose_action(false, Some("a.com,b.com"), Some("c.com")) {
        Action::Add(d) => assert_eq!(d, strings(&["a.com", "b.com"])),
        _ => panic!("expected the add action"),
    }
}

#[test]
fn remove_comes_last() {
    match choose_action(false, None, Some("x.org")) {
        Action::Remove(d) => assert_eq!(d, strings(&["x.org"])),
        _ => panic!("expected the remove action"),
    }
}

#[test]
fn nothing_to_do_without_inputs() {
    assert!(matches!(choose_action(false, None, None), Action::Idle));
}
