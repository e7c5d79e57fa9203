use bumplog::data::ClassificationError;
use bumplog::data::IdConventionalCommit;
use bumplog::data::RawCommit;

fn raw(id: &str, message: &str) -> RawCommit {
    RawCommit { id: id.to_string(), message: message.to_string() }
}

#[test]
fn classifies_full_header_with_scope_and_bang() {
    let c = IdConventionalCommit::from_commit(&raw("abc", "feat(api)!: add endpoint")).unwrap();
    assert_eq!(c.commit_type, "feat");
    assert_eq!(c.scope.as_deref(), Some("api"));
    assert_eq!(c.description, "add endpoint");
    assert!(c.is_breaking);
    assert_eq!(c.id, "abc");
}

#[test]
fn classifies_plain_header() {
    let c = IdConventionalCommit::from_commit(&raw("1", "fix: repair the hinge")).unwrap();
    assert_eq!(c.commit_type, "fix");
    assert_eq!(c.scope, None);
    assert_eq!(c.description, "repair the hinge");
    assert!(!c.is_breaking);
}

#[test]
fn bang_without_scope_marks_breaking() {
    let c = IdConventionalCommit::from_commit(&raw("1", "feat!: drop the old api")).unwrap();
    assert_eq!(c.commit_type, "feat");
    assert_eq!(c.scope, None);
    assert!(c.is_breaking);
}

#[test]
fn breaking_change_footer_marks_breaking() {
    let msg = "fix: adjust defaults\n\nsome body text\n\nBREAKING CHANGE: defaults changed";
    let c = IdConventionalCommit::from_commit(&raw("1", msg)).unwrap();
    assert_eq!(c.commit_type, "fix");
    assert!(c.is_breaking);
}

#[test]
fn dashed_breaking_change_footer_marks_breaking() {
    let msg = "chore: tidy\n\nBREAKING-CHANGE: config moved";
    let c = IdConventionalCommit::from_commit(&raw("1", msg)).unwrap();
    assert_eq!(c.commit_type, "chore");
    assert!(c.is_breaking);
}

#[test]
fn marker_in_the_middle_of_a_line_is_no_footer() {
    let msg = "fix: adjust\n\nthis mentions BREAKING CHANGE: casually";
    let c = IdConventionalCommit::from_commit(&raw("1", msg)).unwrap();
    assert!(!c.is_breaking);
}

#[test]
fn only_the_header_line_is_parsed() {
    let c = IdConventionalCommit::from_commit(&raw("1", "feat: one\n\nfix: not a header")).unwrap();
    assert_eq!(c.commit_type, "feat");
    assert_eq!(c.description, "one");
}

#[test]
fn message_without_colon_is_unparseable() {
    let r = IdConventionalCommit::from_commit(&raw("1", "just some text"));
    assert_eq!(r.unwrap_err(), ClassificationError::Unparseable);
}

#[test]
fn empty_type_is_unparseable() {
    assert!(IdConventionalCommit::from_commit(&raw("1", ": no type")).is_err());
    assert!(IdConventionalCommit::from_commit(&raw("1", "")).is_err());
}

#[test]
fn uppercase_type_is_unparseable() {
    assert!(IdConventionalCommit::from_commit(&raw("1", "Merge branch: main")).is_err());
}

#[test]
fn malformed_scope_is_unparseable() {
    assert!(IdConventionalCommit::from_commit(&raw("1", "feat(api: no close")).is_err());
    assert!(IdConventionalCommit::from_commit(&raw("1", "feat(): empty scope")).is_err());
}

#[test]
fn missing_space_after_colon_is_unparseable() {
    assert!(IdConventionalCommit::from_commit(&raw("1", "feat:no space")).is_err());
}
