//! Changelog rendering. Each group whose type has a heading label becomes a
//! section — a heading line followed by one bullet line per commit — and a
//! group without a label is suppressed entirely. Sections appear in group
//! order, which is the order of first appearance of each type in the input.

use vstd::prelude::*;
use vstd::string::StrSliceExecFns;
use vstd::string::StringExecFns;

use crate::conv::GroupedView;
use crate::conv::cseq;
use crate::conv::gview;
use crate::data::CommitRec;
use crate::data::Config;
use crate::data::IdConventionalCommit;
use crate::data::lookup_heading;
use crate::data::spec_lookup;
use crate::text::replace_id;
use crate::text::spec_replace_id;

verus! {

/// The two output styles: heading- and link-rich markup, and plain-bullet
/// markup with inline hyperlinks.
#[derive(Debug, PartialEq, Eq, Structural, Clone, Copy)]
pub enum OutputStyle {
    Markdown,
    Mrkdwn,
}

/// The commit identifier as displayed: truncated to its first 8 characters.
pub open spec fn spec_short_id(id: Seq<char>) -> Seq<char> {
    if id.len() <= 8 {
        id
    } else {
        id.take(8)
    }
}

/// The trailing reference of a bullet line: the short id in parentheses
/// when no URL template is configured, else a style-appropriate hyperlink
/// labeled with the short id and pointing at the URL built from the
/// template.
pub open spec fn spec_reference(id: Seq<char>, tpl: Option<Seq<char>>, style: OutputStyle) -> Seq<
    char,
> {
    match tpl {
        None => "("@ + spec_short_id(id) + ")"@,
        Some(t) => match style {
            OutputStyle::Markdown => "(["@ + spec_short_id(id) + "]("@ + spec_replace_id(t, id)
                + "))"@,
            OutputStyle::Mrkdwn => "(<"@ + spec_replace_id(t, id) + "|"@ + spec_short_id(id)
                + ">)"@,
        },
    }
}

/// The scope prefix of a bullet line: the scope in the style's emphasis
/// marker, followed by a colon and a space; empty without a scope.
pub open spec fn spec_scope_part(scope: Option<Seq<char>>, style: OutputStyle) -> Seq<char> {
    match scope {
        None => Seq::empty(),
        Some(s) => match style {
            OutputStyle::Markdown => "**"@ + s + "**: "@,
            OutputStyle::Mrkdwn => "*"@ + s + "*: "@,
        },
    }
}

/// The bullet glyph opening a commit line.
pub open spec fn spec_bullet(style: OutputStyle) -> Seq<char> {
    match style {
        OutputStyle::Markdown => "* "@,
        OutputStyle::Mrkdwn => "• "@,
    }
}

/// One bullet line: glyph, scope prefix, the description verbatim, and the
/// trailing reference.
pub open spec fn spec_commit_line(c: CommitRec, tpl: Option<Seq<char>>, style: OutputStyle) -> Seq<
    char,
> {
    spec_bullet(style) + spec_scope_part(c.scope, style) + c.description + " "@ + spec_reference(
        c.id,
        tpl,
        style,
    ) + "\n"@
}

/// The heading line of a labeled group.
pub open spec fn spec_heading(label: Seq<char>, style: OutputStyle) -> Seq<char> {
    match style {
        OutputStyle::Markdown => "\n## "@ + label + "\n\n"@,
        OutputStyle::Mrkdwn => label + "\n"@,
    }
}

/// The bullet lines of one group, in order.
pub open spec fn spec_group_lines(
    cs: Seq<CommitRec>,
    tpl: Option<Seq<char>>,
    style: OutputStyle,
) -> Seq<char>
    decreases cs.len(),
{
    if cs.len() == 0 {
        Seq::empty()
    } else {
        spec_group_lines(cs.drop_last(), tpl, style) + spec_commit_line(cs.last(), tpl, style)
    }
}

/// One group's contribution: heading and bullets when its type is labeled,
/// nothing otherwise.
pub open spec fn spec_group_section(
    key: Seq<char>,
    cs: Seq<CommitRec>,
    hs: Seq<(Seq<char>, Seq<char>)>,
    tpl: Option<Seq<char>>,
    style: OutputStyle,
) -> Seq<char> {
    match spec_lookup(hs, key) {
        None => Seq::empty(),
        Some(label) => spec_heading(label, style) + spec_group_lines(cs, tpl, style),
    }
}

/// The whole changelog: the sections of the groups, in group order.
pub open spec fn spec_render(
    g: GroupedView,
    hs: Seq<(Seq<char>, Seq<char>)>,
    tpl: Option<Seq<char>>,
    style: OutputStyle,
) -> Seq<char>
    decreases g.len(),
{
    if g.len() == 0 {
        Seq::empty()
    } else {
        spec_render(g.drop_last(), hs, tpl, style) + spec_group_section(
            g.last().0,
            g.last().1,
            hs,
            tpl,
            style,
        )
    }
}

/// Append the displayed form of a commit identifier.
fn append_short_id(out: &mut String, id: &str)
    ensures
        final(out)@ == old(out)@ + spec_short_id(id@),
{
    let n = id.unicode_len();
    if n <= 8 {
        out.append(id);
    } else {
        let s = id.substring_char(0, 8);
        proof {
            assert(s@ =~= spec_short_id(id@));
        }
        out.append(s);
    }
}

/// Append the trailing reference of a bullet line.
fn append_reference(out: &mut String, id: &str, config: &Config, style: OutputStyle)
    ensures
        final(out)@ == old(out)@ + spec_reference(id@, config@.repo_commit_url_tpl, style),
{
    match &config.repo_commit_url_tpl {
        None => {
            out.append("(");
            append_short_id(out, id);
            out.append(")");
        },
        Some(t) => {
            let url = replace_id(t.as_str(), id);
            match style {
                OutputStyle::Markdown => {
                    out.append("([");
                    append_short_id(out, id);
                    out.append("](");
                    out.append(url.as_str());
                    out.append("))");
                },
                OutputStyle::Mrkdwn => {
                    out.append("(<");
                    out.append(url.as_str());
                    out.append("|");
                    append_short_id(out, id);
                    out.append(">)");
                },
            }
        },
    }
    proof {
        assert(out@ =~= old(out)@ + spec_reference(id@, config@.repo_commit_url_tpl, style));
    }
}

/// Append one bullet line for a commit.
fn append_commit_line(out: &mut String, c: &IdConventionalCommit, config: &Config, style: OutputStyle)
    ensures
        final(out)@ == old(out)@ + spec_commit_line(c@, config@.repo_commit_url_tpl, style),
{
    match style {
        OutputStyle::Markdown => out.append("* "),
        OutputStyle::Mrkdwn => out.append("• "),
    }
    match &c.scope {
        None => {},
        Some(s) => {
            match style {
                OutputStyle::Markdown => {
                    out.append("**");
                    out.append(s.as_str());
                    out.append("**: ");
                },
                OutputStyle::Mrkdwn => {
                    out.append("*");
                    out.append(s.as_str());
                    out.append("*: ");
                },
            }
        },
    }
    out.append(c.description.as_str());
    out.append(" ");
    append_reference(out, c.id.as_str(), config, style);
    out.append("\n");
    proof {
        assert(out@ =~= old(out)@ + spec_commit_line(c@, config@.repo_commit_url_tpl, style));
    }
}

/// Append one group's section: nothing when its type has no heading label.
fn append_group(
    out: &mut String,
    key: &String,
    cs: &Vec<IdConventionalCommit>,
    config: &Config,
    style: OutputStyle,
)
    ensures
        final(out)@ == old(out)@ + spec_group_section(
            key@,
            cseq(cs@),
            config@.headings,
            config@.repo_commit_url_tpl,
            style,
        ),
{
    let label = lookup_heading(config, key.as_str());
    match label {
        None => {},
        Some(l) => {
            match style {
                OutputStyle::Markdown => {
                    out.append("\n## ");
                    out.append(l.as_str());
                    out.append("\n\n");
                },
                OutputStyle::Mrkdwn => {
                    out.append(l.as_str());
                    out.append("\n");
                },
            }
            proof {
                assert(out@ =~= old(out)@ + spec_heading(l@, style));
            }
            let ghost base = out@;
            let ghost tpl = config@.repo_commit_url_tpl;
            let ghost crs = cseq(cs@);
            proof {
                assert(crs.take(0) =~= Seq::<CommitRec>::empty());
                assert(base + Seq::<char>::empty() =~= base);
            }
            let m = cs.len();
            let mut j: usize = 0;
            while j < m
                invariant
                    0 <= j <= m,
                    m == cs@.len(),
                    crs == cseq(cs@),
                    crs.len() == m,
                    tpl == config@.repo_commit_url_tpl,
                    out@ == base + spec_group_lines(crs.take(j as int), tpl, style),
                decreases m - j,
            {
                proof {
                    assert(crs[j as int] == cs@[j as int]@);
                    assert(crs.take(j + 1).drop_last() =~= crs.take(j as int));
                    assert(crs.take(j + 1).last() == crs[j as int]);
                }
                let ghost before = out@;
                append_commit_line(out, &cs[j], config, style);
                proof {
                    assert(out@ =~= base + spec_group_lines(crs.take(j + 1), tpl, style));
                }
                j = j + 1;
            }
            proof {
                assert(crs.take(m as int) =~= crs);
                assert(out@ =~= old(out)@ + spec_group_section(
                    key@,
                    crs,
                    config@.headings,
                    tpl,
                    style,
                ));
            }
        },
    }
}

/// Render the changelog of the grouped commits in the given style.
fn render_changelog(
    grouped: &Vec<(String, Vec<IdConventionalCommit>)>,
    config: &Config,
    style: OutputStyle,
) -> (r: String)
    ensures
        r@ == spec_render(gview(grouped@), config@.headings, config@.repo_commit_url_tpl, style),
{
    let ghost gv = gview(grouped@);
    let ghost hs = config@.headings;
    let ghost tpl = config@.repo_commit_url_tpl;
    let mut out = String::new();
    proof {
        assert(gv.take(0) =~= Seq::<(Seq<char>, Seq<CommitRec>)>::empty());
        assert(out@ =~= spec_render(gv.take(0), hs, tpl, style));
    }
    let n = grouped.len();
    let mut i: usize = 0;
    while i < n
        invariant
            0 <= i <= n,
            n == grouped@.len(),
            gv == gview(grouped@),
            gv.len() == n,
            hs == config@.headings,
            tpl == config@.repo_commit_url_tpl,
            out@ == spec_render(gv.take(i as int), hs, tpl, style),
        decreases n - i,
    {
        proof {
            assert(gv[i as int] == (grouped@[i as int].0@, cseq(grouped@[i as int].1@)));
            assert(gv.take(i + 1).drop_last() =~= gv.take(i as int));
            assert(gv.take(i + 1).last() == gv[i as int]);
        }
        let pair = &grouped[i];
        append_group(&mut out, &pair.0, &pair.1, config, style);
        proof {
            assert(out@ =~= spec_render(gv.take(i + 1), hs, tpl, style));
        }
        i = i + 1;
    }
    proof {
        assert(gv.take(n as int) =~= gv);
    }
    out
}

/// Heading- and link-rich changelog: each labeled group becomes a
/// sub-heading followed by one bullet line per commit.
pub fn create_markdown_changelog(
    grouped: &Vec<(String, Vec<IdConventionalCommit>)>,
    config: &Config,
) -> (r: String)
    ensures
        r@ == spec_render(
            gview(grouped@),
            config@.headings,
            config@.repo_commit_url_tpl,
            OutputStyle::Markdown,
        ),
{
    render_changelog(grouped, config, OutputStyle::Markdown)
}

/// Plain-bullet changelog: each labeled group becomes a bare heading line
/// followed by one bullet line per commit, with inline hyperlink markup.
pub fn create_mrkdwn_changelog(
    grouped: &Vec<(String, Vec<IdConventionalCommit>)>,
    config: &Config,
) -> (r: String)
    ensures
        r@ == spec_render(
            gview(grouped@),
            config@.headings,
            config@.repo_commit_url_tpl,
            OutputStyle::Mrkdwn,
        ),
{
    render_changelog(grouped, config, OutputStyle::Mrkdwn)
}

} // verus!
