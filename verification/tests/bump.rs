use bumplog::conv::determine_bump;
use bumplog::conv::parse_into_grouped;
use bumplog::data::Bump;
use bumplog::data::RawCommit;

fn raw(id: &str, message: &str) -> RawCommit {
    RawCommit { id: id.to_string(), message: message.to_string() }
}

fn bump_of(messages: &[&str]) -> Bump {
    let commits: Vec<RawCommit> =
        messages.iter().enumerate().map(|(i, m)| raw(&format!("{}", i), m)).collect();
    let grouped = parse_into_grouped(&commits);
    determine_bump(&grouped)
}

#[test]
fn breaking_commit_forces_major() {
    assert_eq!(bump_of(&["chore: a", "fix!: b", "feat: c"]), Bump::Major);
}

#[test]
fn breaking_footer_forces_major() {
    assert_eq!(bump_of(&["fix: a\n\nBREAKING CHANGE: gone"]), Bump::Major);
}

#[test]
fn feat_without_breaking_gives_minor() {
    assert_eq!(bump_of(&["chore: a", "feat: b", "fix: c"]), Bump::Minor);
}

#[test]
fn quiet_commits_give_patch() {
    assert_eq!(bump_of(&["chore: a", "fix: b", "docs: c"]), Bump::Patch);
}

#[test]
fn empty_input_gives_patch() {
    assert_eq!(bump_of(&[]), Bump::Patch);
}

#[test]
fn all_unparseable_gives_patch() {
    assert_eq!(bump_of(&["just some text", "Merge branch 'main'"]), Bump::Patch);
}

#[test]
fn order_of_commits_does_not_change_the_bump() {
    let forward = bump_of(&["chore: a", "feat: b", "fix!: c"]);
    let backward = bump_of(&["fix!: c", "feat: b", "chore: a"]);
    assert_eq!(forward, backward);
    assert_eq!(forward, Bump::Major);
}

#[test]
fn unparseable_commit_contributes_nothing() {
    let commits = vec![raw("1", "just some text")];
    let grouped = parse_into_grouped(&commits);
    assert!(grouped.is_empty());
    assert_eq!(determine_bump(&grouped), Bump::Patch);
}

#[test]
fn grouping_keeps_input_order_within_a_type() {
    let commits = vec![
        raw("1", "feat: first"),
        raw("2", "fix: third"),
        raw("3", "feat: second"),
    ];
    let grouped = parse_into_grouped(&commits);
    assert_eq!(grouped.len(), 2);
    assert_eq!(grouped[0].0, "feat");
    assert_eq!(grouped[0].1.len(), 2);
    assert_eq!(grouped[0].1[0].description, "first");
    assert_eq!(grouped[0].1[1].description, "second");
    assert_eq!(grouped[1].0, "fix");
    assert_eq!(grouped[1].1[0].description, "third");
}
