use homefiles::sandbox::{inhome, validate};

#[test]
fn accepts_path_inside_owner_home() {
    let p = validate("/home/alice/docs/report.pdf", "alice").expect("accepted");
    assert_eq!(p.as_str(), "/home/alice/docs/report.pdf");
}

#[test]
fn accepts_relative_home_path() {
    assert!(validate("./home/alice/docs", "alice").is_some());
    assert!(validate("./home/alice", "alice").is_some());
}

#[test]
fn rejects_double_traversal_to_etc() {
    assert!(validate("/home/alice/../../etc", "alice").is_none());
}

#[test]
fn rejects_single_traversal() {
    assert!(validate("/home/alice/../bob", "alice").is_none());
    assert!(validate("/home/alice/docs/../x", "alice").is_none());
}

#[test]
fn accepts_when_traversal_budget_keeps_owner() {
    // three `..` keep the first three segments
    assert!(validate("/home/alice/a/b/c/../../..", "alice").is_some());
}

#[test]
fn rejects_other_owner_and_non_home() {
    assert!(validate("/home/bob/docs", "alice").is_none());
    assert!(validate("/etc/alice/x", "alice").is_none());
    assert!(validate("/home/alicea/x", "alice").is_none());
    assert!(validate("/home", "alice").is_none());
    assert!(validate("", "alice").is_none());
    assert!(validate("/home//x", "").is_none());
}

#[test]
fn inhome_uses_third_segment_as_owner() {
    assert!(inhome("./home/alice/docs".to_string()));
    assert!(!inhome("./home/alice/../../etc".to_string()));
    assert!(!inhome("./etc/passwd".to_string()));
    assert!(!inhome("home".to_string()));
}

#[test]
fn rejects_path_that_climbs_out_after_the_kept_prefix() {
    // the kept prefix names alice's home, but the path resolves to /x/y
    assert!(validate("/home/alice/a/../../../x/y", "alice").is_none());
    assert!(!inhome("./home/alice/a/../../../x/y".to_string()));
}

#[test]
fn accepts_dot_segments_inside_home() {
    assert!(validate("/home/alice/./docs/", "alice").is_some());
}
