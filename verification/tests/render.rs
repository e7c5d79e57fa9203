use bumplog::conv::parse_into_grouped;
use bumplog::data::Config;
use bumplog::data::RawCommit;
use bumplog::format::create_markdown_changelog;
use bumplog::format::create_mrkdwn_changelog;

fn raw(id: &str, message: &str) -> RawCommit {
    RawCommit { id: id.to_string(), message: message.to_string() }
}

fn headings(pairs: &[(&str, &str)]) -> Vec<(String, String)> {
    pairs.iter().map(|(k, v)| (k.to_string(), v.to_string())).collect()
}

#[test]
fn unlabeled_groups_are_suppressed() {
    let commits = vec![raw("1111111111", "feat: add endpoint"), raw("2222222222", "chore: tidy")];
    let grouped = parse_into_grouped(&commits);
    assert_eq!(grouped.len(), 2);
    let config = Config { headings: headings(&[("feat", "Features")]), repo_commit_url_tpl: None };
    let out = create_markdown_changelog(&grouped, &config);
    assert_eq!(out, "\n## Features\n\n* add endpoint (11111111)\n");
    assert!(!out.contains("chore"));
    assert!(!out.contains("tidy"));
}

#[test]
fn markdown_scope_is_emphasized() {
    let commits = vec![raw("1111111111", "feat(api): add endpoint")];
    let grouped = parse_into_grouped(&commits);
    let config = Config { headings: headings(&[("feat", "Features")]), repo_commit_url_tpl: None };
    let out = create_markdown_changelog(&grouped, &config);
    assert_eq!(out, "\n## Features\n\n* **api**: add endpoint (11111111)\n");
}

#[test]
fn markdown_reference_uses_url_template() {
    let commits = vec![raw("abcdef1234567890", "feat: add endpoint")];
    let grouped = parse_into_grouped(&commits);
    let config = Config {
        headings: headings(&[("feat", "Features")]),
        repo_commit_url_tpl: Some("https://x/{id}".to_string()),
    };
    let out = create_markdown_changelog(&grouped, &config);
    assert_eq!(out, "\n## Features\n\n* add endpoint ([abcdef12](https://x/abcdef1234567890))\n");
}

#[test]
fn mrkdwn_plain_output() {
    let commits = vec![raw("1111111111", "fix(ui): align the button")];
    let grouped = parse_into_grouped(&commits);
    let config = Config { headings: headings(&[("fix", "Fixes")]), repo_commit_url_tpl: None };
    let out = create_mrkdwn_changelog(&grouped, &config);
    assert_eq!(out, "Fixes\n\u{2022} *ui*: align the button (11111111)\n");
}

#[test]
fn mrkdwn_reference_uses_inline_link() {
    let commits = vec![raw("abcdef1234567890", "fix: align")];
    let grouped = parse_into_grouped(&commits);
    let config = Config {
        headings: headings(&[("fix", "Fixes")]),
        repo_commit_url_tpl: Some("https://x/{id}".to_string()),
    };
    let out = create_mrkdwn_changelog(&grouped, &config);
    assert_eq!(out, "Fixes\n\u{2022} align (<https://x/abcdef1234567890|abcdef12>)\n");
}

#[test]
fn short_identifier_is_kept_whole() {
    let commits = vec![raw("ab12", "feat: tiny")];
    let grouped = parse_into_grouped(&commits);
    let config = Config { headings: headings(&[("feat", "Features")]), repo_commit_url_tpl: None };
    let out = create_markdown_changelog(&grouped, &config);
    assert_eq!(out, "\n## Features\n\n* tiny (ab12)\n");
}

#[test]
fn sections_follow_first_appearance_order() {
    let commits = vec![
        raw("1111111111", "fix: b"),
        raw("2222222222", "feat: a"),
        raw("3333333333", "fix: c"),
    ];
    let grouped = parse_into_grouped(&commits);
    let config = Config {
        headings: headings(&[("feat", "Features"), ("fix", "Fixes")]),
        repo_commit_url_tpl: None,
    };
    let out = create_markdown_changelog(&grouped, &config);
    assert_eq!(out, "\n## Fixes\n\n* b (11111111)\n* c (33333333)\n\n## Features\n\n* a (22222222)\n");
}

#[test]
fn duplicate_heading_pairs_first_wins() {
    let commits = vec![raw("1111111111", "feat: x")];
    let grouped = parse_into_grouped(&commits);
    let config = Config {
        headings: headings(&[("feat", "Features"), ("feat", "Shadowed")]),
        repo_commit_url_tpl: None,
    };
    let out = create_markdown_changelog(&grouped, &config);
    assert_eq!(out, "\n## Features\n\n* x (11111111)\n");
}

#[test]
fn every_placeholder_of_the_template_is_substituted() {
    let commits = vec![raw("abcdef1234567890", "feat: x")];
    let grouped = parse_into_grouped(&commits);
    let config = Config {
        headings: headings(&[("feat", "Features")]),
        repo_commit_url_tpl: Some("https://x/{id}?ref={id}".to_string()),
    };
    let out = create_markdown_changelog(&grouped, &config);
    assert_eq!(
        out,
        "\n## Features\n\n* x ([abcdef12](https://x/abcdef1234567890?ref=abcdef1234567890))\n"
    );
}

#[test]
fn no_labeled_group_renders_nothing() {
    let commits = vec![raw("1111111111", "chore: tidy")];
    let grouped = parse_into_grouped(&commits);
    let config = Config { headings: headings(&[("feat", "Features")]), repo_commit_url_tpl: None };
    assert_eq!(create_markdown_changelog(&grouped, &config), "");
    assert_eq!(create_mrkdwn_changelog(&grouped, &config), "");
}
