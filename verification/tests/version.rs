use bumplog::data::Bump;
use bumplog::data::RawCommit;
use bumplog::repo::commits_until_tag;
use bumplog::text::parse_key_val;
use bumplog::version::get_latest_version;
use bumplog::version::next_version;
use bumplog::version::Version;

fn tags(names: &[&str]) -> Vec<String> {
    names.iter().map(|n| n.to_string()).collect()
}

#[test]
fn minor_bump_from_1_4_2() {
    let prior = Version { major: 1, minor: 4, patch: 2 };
    let next = next_version(&prior, Bump::Minor);
    assert_eq!(next, Version { major: 1, minor: 5, patch: 0 });
}

#[test]
fn major_bump_from_1_4_2() {
    let prior = Version { major: 1, minor: 4, patch: 2 };
    let next = next_version(&prior, Bump::Major);
    assert_eq!(next, Version { major: 2, minor: 0, patch: 0 });
}

#[test]
fn patch_bump_from_1_4_2() {
    let prior = Version { major: 1, minor: 4, patch: 2 };
    let next = next_version(&prior, Bump::Patch);
    assert_eq!(next, Version { major: 1, minor: 4, patch: 3 });
}

#[test]
fn latest_version_is_the_maximum() {
    let t = tags(&["0.1.0", "1.2.3", "not-a-version", "0.9.9", "1.2.2"]);
    assert_eq!(get_latest_version(&t), Some(Version { major: 1, minor: 2, patch: 3 }));
}

#[test]
fn latest_version_orders_numerically_not_lexically() {
    let t = tags(&["2.0.0", "10.0.0", "9.0.0"]);
    assert_eq!(get_latest_version(&t), Some(Version { major: 10, minor: 0, patch: 0 }));
}

#[test]
fn pre_release_tags_parse_to_their_triple() {
    let t = tags(&["1.3.0-alpha.1", "1.2.9"]);
    assert_eq!(get_latest_version(&t), Some(Version { major: 1, minor: 3, patch: 0 }));
}

#[test]
fn no_parseable_tag_yields_none() {
    assert_eq!(get_latest_version(&tags(&["v1.2.3", "release", "1.2"])), None);
    assert_eq!(get_latest_version(&tags(&[])), None);
}

#[test]
fn parse_key_val_splits_at_the_first_equals() {
    assert_eq!(
        parse_key_val("feat=Features"),
        Ok(("feat".to_string(), "Features".to_string()))
    );
    assert_eq!(parse_key_val("a=b=c"), Ok(("a".to_string(), "b=c".to_string())));
    assert!(parse_key_val("no separator").is_err());
}

#[test]
fn walked_commits_are_cut_at_the_tag_and_reversed() {
    let walked = vec![
        RawCommit { id: "c3".to_string(), message: "feat: three".to_string() },
        RawCommit { id: "c2".to_string(), message: "fix: two".to_string() },
        RawCommit { id: "c1".to_string(), message: "chore: one".to_string() },
        RawCommit { id: "c0".to_string(), message: "feat: tagged".to_string() },
    ];
    let cut = commits_until_tag(&walked, "c0");
    let ids: Vec<&str> = cut.iter().map(|c| c.id.as_str()).collect();
    assert_eq!(ids, vec!["c1", "c2", "c3"]);
    assert_eq!(cut[0].message, "chore: one");
}

#[test]
fn absent_tag_keeps_the_whole_walk() {
    let walked = vec![
        RawCommit { id: "c2".to_string(), message: "fix: two".to_string() },
        RawCommit { id: "c1".to_string(), message: "chore: one".to_string() },
    ];
    let cut = commits_until_tag(&walked, "missing");
    let ids: Vec<&str> = cut.iter().map(|c| c.id.as_str()).collect();
    assert_eq!(ids, vec!["c1", "c2"]);
}
