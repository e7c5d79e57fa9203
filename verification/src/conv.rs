//! Grouping of classified commits by type, and the version-bump decision.

use vstd::prelude::*;
use vstd::seq_lib::group_to_multiset_ensures;

use crate::data::Bump;
use crate::data::CommitRec;
use crate::data::IdConventionalCommit;
use crate::data::Parsed;
use crate::data::RawCommit;
use crate::data::RawRec;
use crate::data::severity;
use crate::data::spec_classify;
use crate::text::str_eq;

verus! {

/// Abstract value of a grouped map: group keys with the abstract records of
/// their commits, in order.
pub type GroupedView = Seq<(Seq<char>, Seq<CommitRec>)>;

/// Abstract values of one group's commits.
pub open spec fn cseq(v: Seq<IdConventionalCommit>) -> Seq<CommitRec> {
    v.map_values(|c: IdConventionalCommit| c@)
}

/// Abstract value of a grouped map held in a vector.
pub open spec fn gview(g: Seq<(String, Vec<IdConventionalCommit>)>) -> GroupedView {
    g.map_values(|p: (String, Vec<IdConventionalCommit>)| (p.0@, cseq(p.1@)))
}

/// Abstract values of a sequence of raw records.
pub open spec fn rviews(rs: Seq<RawCommit>) -> Seq<RawRec> {
    rs.map_values(|r: RawCommit| r@)
}

/// The classified record a parseable raw record yields.
pub open spec fn classified_rec(id: Seq<char>, p: Parsed) -> CommitRec {
    CommitRec {
        id: id,
        commit_type: p.commit_type,
        scope: p.scope,
        description: p.description,
        breaking: p.breaking,
    }
}

/// Index of the group keyed `k`, or the number of groups when none is.
pub open spec fn group_index(g: GroupedView, k: Seq<char>) -> int
    decreases g.len(),
{
    if g.len() == 0 {
        0
    } else if g[0].0 == k {
        0
    } else {
        1 + group_index(g.drop_first(), k)
    }
}

/// `group_index` points at the first group keyed `k`, or at the end.
pub proof fn lemma_group_index(g: GroupedView, k: Seq<char>)
    ensures
        0 <= group_index(g, k) <= g.len(),
        forall|a: int| 0 <= a < group_index(g, k) ==> (#[trigger] g[a]).0 != k,
        group_index(g, k) < g.len() ==> g[group_index(g, k)].0 == k,
    decreases g.len(),
{
    if g.len() == 0 || g[0].0 == k {
    } else {
        lemma_group_index(g.drop_first(), k);
        let gi = group_index(g, k);
        assert forall|a: int| 0 <= a < gi implies (#[trigger] g[a]).0 != k by {
            if a >= 1 {
                assert(g.drop_first()[a - 1] == g[a]);
            }
        }
        if gi < g.len() {
            assert(g.drop_first()[gi - 1] == g[gi]);
        }
    }
}

/// A position before which no group is keyed `k`, and which is keyed `k` or
/// is the end, is exactly `group_index`.
pub proof fn lemma_group_index_unique(g: GroupedView, k: Seq<char>, i: int)
    requires
        0 <= i <= g.len(),
        forall|a: int| 0 <= a < i ==> (#[trigger] g[a]).0 != k,
        i < g.len() ==> g[i].0 == k,
    ensures
        group_index(g, k) == i,
{
    lemma_group_index(g, k);
    let gi = group_index(g, k);
    if gi < i {
        assert(g[gi].0 != k);
    }
    if i < gi {
        assert(g[i].0 != k);
    }
}

/// Insertion of one classified commit: appended to the group keyed by its
/// type, or opening a new group at the end.
pub open spec fn spec_insert(g: GroupedView, c: CommitRec) -> GroupedView {
    let gi = group_index(g, c.commit_type);
    if gi == g.len() {
        g.push((c.commit_type, seq![c]))
    } else {
        g.update(gi, (g[gi].0, g[gi].1.push(c)))
    }
}

/// Grouping of the classifiable records, in input order: each record that
/// classifies is appended to the group of its type; records that do not are
/// discarded; group order is the first appearance of each type.
pub open spec fn spec_aggregate(rs: Seq<RawRec>) -> GroupedView
    decreases rs.len(),
{
    if rs.len() == 0 {
        Seq::empty()
    } else {
        let g = spec_aggregate(rs.drop_last());
        match spec_classify(rs.last().message) {
            None => g,
            Some(p) => spec_insert(g, classified_rec(rs.last().id, p)),
        }
    }
}

/// Append one classified commit to the group of its type, opening the group
/// when it is new.
fn insert_commit(grouped: &mut Vec<(String, Vec<IdConventionalCommit>)>, c: IdConventionalCommit)
    ensures
        gview(final(grouped)@) == spec_insert(gview(old(grouped)@), c@),
{
    let ghost g0 = gview(grouped@);
    let n = grouped.len();
    let mut i: usize = 0;
    while i < n
        invariant
            0 <= i <= n,
            n == grouped@.len(),
            grouped@ == old(grouped)@,
            g0 == gview(grouped@),
            forall|a: int| 0 <= a < i ==> (#[trigger] g0[a]).0 != c@.commit_type,
        decreases n - i,
    {
        proof {
            assert(g0[i as int] == (grouped@[i as int].0@, cseq(grouped@[i as int].1@)));
        }
        let found = str_eq(grouped[i].0.as_str(), c.commit_type.as_str());
        if found {
            proof {
                lemma_group_index_unique(g0, c@.commit_type, i as int);
            }
            let (key, mut cs) = grouped.remove(i);
            cs.push(c);
            grouped.insert(i, (key, cs));
            proof {
                assert(grouped@ =~= old(grouped)@.update(i as int, (key, cs)));
                assert(cseq(cs@) =~= cseq(old(grouped)@[i as int].1@).push(c@));
                assert(gview(grouped@) =~= spec_insert(g0, c@));
            }
            return;
        }
        i = i + 1;
    }
    proof {
        lemma_group_index_unique(g0, c@.commit_type, n as int);
    }
    let key = c.commit_type.clone();
    let mut cs: Vec<IdConventionalCommit> = Vec::new();
    cs.push(c);
    grouped.push((key, cs));
    proof {
        assert(cseq(cs@) =~= seq![c@]);
        assert(gview(grouped@) =~= spec_insert(g0, c@));
    }
}

/// Group the classifiable commits by type, applying the classifier to each
/// record in input order and discarding the unparseable ones.
pub fn parse_into_grouped(commits: &Vec<RawCommit>) -> (r: Vec<(String, Vec<IdConventionalCommit>)>)
    ensures
        gview(r@) == spec_aggregate(rviews(commits@)),
{
    let mut grouped: Vec<(String, Vec<IdConventionalCommit>)> = Vec::new();
    let n = commits.len();
    proof {
        assert(rviews(commits@.take(0)) =~= Seq::<RawRec>::empty());
        assert(gview(grouped@) =~= Seq::<(Seq<char>, Seq<CommitRec>)>::empty());
    }
    let mut ci: usize = 0;
    while ci < n
        invariant
            0 <= ci <= n,
            n == commits@.len(),
            gview(grouped@) == spec_aggregate(rviews(commits@.take(ci as int))),
        decreases n - ci,
    {
        let ghost pre = rviews(commits@.take(ci as int));
        let ghost post = rviews(commits@.take(ci + 1));
        proof {
            assert(post.drop_last() =~= pre);
            assert(post.last() == commits@[ci as int]@);
        }
        match IdConventionalCommit::from_commit(&commits[ci]) {
            Err(_) => {
                proof {
                    assert(spec_aggregate(post) == spec_aggregate(pre));
                }
            },
            Ok(c) => {
                proof {
                    assert(spec_classify(commits@[ci as int].message@) == Some(
                        Parsed {
                            commit_type: c@.commit_type,
                            scope: c@.scope,
                            description: c@.description,
                            breaking: c@.breaking,
                        },
                    ));
                    assert(classified_rec(
                        post.last().id,
                        Parsed {
                            commit_type: c@.commit_type,
                            scope: c@.scope,
                            description: c@.description,
                            breaking: c@.breaking,
                        },
                    ) == c@);
                    assert(spec_aggregate(post) == spec_insert(spec_aggregate(pre), c@));
                }
                insert_commit(&mut grouped, c);
            },
        }
        ci = ci + 1;
    }
    proof {
        assert(commits@.take(n as int) =~= commits@);
    }
    grouped
}

/// Well-formedness of a grouped map: group keys are pairwise distinct, and
/// every commit sits in the group keyed by its own type.
pub open spec fn grouped_wf(g: GroupedView) -> bool {
    (forall|a: int, b: int|
        0 <= a < b < g.len() ==> (#[trigger] g[a]).0 != (#[trigger] g[b]).0) && (forall|
        i: int,
        j: int,
    |
        0 <= i < g.len() && 0 <= j < g[i].1.len() ==> (#[trigger] g[i].1[j]).commit_type == g[i].0)
}

/// Insertion preserves well-formedness.
proof fn lemma_insert_wf(g: GroupedView, c: CommitRec)
    requires
        grouped_wf(g),
    ensures
        grouped_wf(spec_insert(g, c)),
{
    lemma_group_index(g, c.commit_type);
    let gi = group_index(g, c.commit_type);
    if gi == g.len() {
        let g2 = g.push((c.commit_type, seq![c]));
        assert forall|a: int, b: int|
            0 <= a < b < g2.len() implies (#[trigger] g2[a]).0 != (#[trigger] g2[b]).0 by {
            if b < g.len() {
                assert(g2[a] == g[a] && g2[b] == g[b]);
            } else {
                assert(g2[a] == g[a] && g[a].0 != c.commit_type);
            }
        }
        assert forall|i: int, j: int|
            0 <= i < g2.len() && 0 <= j < g2[i].1.len() implies (#[trigger] g2[i].1[j]).commit_type
            == g2[i].0 by {
            if i < g.len() {
                assert(g2[i] == g[i]);
            } else {
                assert(g2[i].1 == seq![c] && g2[i].1[0] == c);
            }
        }
    } else {
        let g2 = g.update(gi, (g[gi].0, g[gi].1.push(c)));
        assert forall|a: int, b: int|
            0 <= a < b < g2.len() implies (#[trigger] g2[a]).0 != (#[trigger] g2[b]).0 by {
            assert(g2[a].0 == g[a].0 && g2[b].0 == g[b].0);
        }
        assert forall|i: int, j: int|
            0 <= i < g2.len() && 0 <= j < g2[i].1.len() implies (#[trigger] g2[i].1[j]).commit_type
            == g2[i].0 by {
            if i != gi {
                assert(g2[i] == g[i]);
            } else {
                assert(g2[i].1 == g[gi].1.push(c));
                if j < g[gi].1.len() {
                    assert(g2[i].1[j] == g[gi].1[j]);
                } else {
                    assert(g2[i].1[j] == c && g[gi].0 == c.commit_type);
                }
            }
        }
    }
}

/// Aggregation yields a well-formed grouped map: each type token keys at
/// most one group, and every commit stands under its own type.
pub proof fn lemma_aggregate_wf(rs: Seq<RawRec>)
    ensures
        grouped_wf(spec_aggregate(rs)),
    decreases rs.len(),
{
    if rs.len() == 0 {
    } else {
        lemma_aggregate_wf(rs.drop_last());
        match spec_classify(rs.last().message) {
            None => {},
            Some(p) => {
                lemma_insert_wf(spec_aggregate(rs.drop_last()), classified_rec(rs.last().id, p));
            },
        }
    }
}

/// The type token whose commits raise the bump to at least `Minor`.
pub open spec fn feat_token() -> Seq<char> {
    "feat"@
}

/// Whether some commit of some group is breaking.
pub open spec fn has_breaking(g: GroupedView) -> bool {
    exists|i: int, j: int|
        0 <= i < g.len() && 0 <= j < g[i].1.len() && (#[trigger] g[i].1[j]).breaking
}

/// Whether some commit of some group is a `feat` commit.
pub open spec fn has_feat(g: GroupedView) -> bool {
    exists|i: int, j: int|
        0 <= i < g.len() && 0 <= j < g[i].1.len() && (#[trigger] g[i].1[j]).commit_type
            == feat_token()
}

/// The single highest-severity bump the grouped commits imply: `Major` for
/// any breaking commit, else `Minor` for any `feat` commit, else `Patch`.
pub open spec fn spec_bump(g: GroupedView) -> Bump {
    if has_breaking(g) {
        Bump::Major
    } else if has_feat(g) {
        Bump::Minor
    } else {
        Bump::Patch
    }
}

/// Restriction of `has_breaking` to one more group: the first `i` groups
/// plus the group at `i`.
proof fn lemma_take_step_breaking(g: GroupedView, i: int)
    requires
        0 <= i < g.len(),
    ensures
        has_breaking(g.take(i + 1)) == (has_breaking(g.take(i)) || exists|b: int|
            0 <= b < g[i].1.len() && (#[trigger] g[i].1[b]).breaking),
{
    let pre = g.take(i);
    let post = g.take(i + 1);
    if has_breaking(post) {
        let (a, b): (int, int) = choose|a: int, b: int|
            0 <= a < post.len() && 0 <= b < post[a].1.len() && (#[trigger] post[a].1[b]).breaking;
        if a < i {
            assert(pre[a].1[b].breaking);
        } else {
            assert(g[i].1[b].breaking);
        }
    }
    if has_breaking(pre) {
        let (a, b): (int, int) = choose|a: int, b: int|
            0 <= a < pre.len() && 0 <= b < pre[a].1.len() && (#[trigger] pre[a].1[b]).breaking;
        assert(post[a].1[b].breaking);
    }
    if exists|b: int| 0 <= b < g[i].1.len() && (#[trigger] g[i].1[b]).breaking {
        let b = choose|b: int| 0 <= b < g[i].1.len() && (#[trigger] g[i].1[b]).breaking;
        assert(post[i].1[b].breaking);
    }
}

/// Restriction of `has_feat` to one more group.
proof fn lemma_take_step_feat(g: GroupedView, i: int)
    requires
        0 <= i < g.len(),
    ensures
        has_feat(g.take(i + 1)) == (has_feat(g.take(i)) || exists|b: int|
            0 <= b < g[i].1.len() && (#[trigger] g[i].1[b]).commit_type == feat_token()),
{
    let pre = g.take(i);
    let post = g.take(i + 1);
    if has_feat(post) {
        let (a, b): (int, int) = choose|a: int, b: int|
            0 <= a < post.len() && 0 <= b < post[a].1.len() && (#[trigger] post[a].1[b]).commit_type
                == feat_token();
        if a < i {
            assert(pre[a].1[b].commit_type == feat_token());
        } else {
            assert(g[i].1[b].commit_type == feat_token());
        }
    }
    if has_feat(pre) {
        let (a, b): (int, int) = choose|a: int, b: int|
            0 <= a < pre.len() && 0 <= b < pre[a].1.len() && (#[trigger] pre[a].1[b]).commit_type
                == feat_token();
        assert(post[a].1[b].commit_type == feat_token());
    }
    if exists|b: int| 0 <= b < g[i].1.len() && (#[trigger] g[i].1[b]).commit_type == feat_token() {
        let b = choose|b: int|
            0 <= b < g[i].1.len() && (#[trigger] g[i].1[b]).commit_type == feat_token();
        assert(post[i].1[b].commit_type == feat_token());
    }
}

/// Scan every commit across all groups and yield the highest severity seen:
/// `Major` for a breaking commit, `Minor` for a `feat` commit, else `Patch`.
pub fn determine_bump(grouped: &Vec<(String, Vec<IdConventionalCommit>)>) -> (r: Bump)
    ensures
        r == spec_bump(gview(grouped@)),
{
    let ghost gv = gview(grouped@);
    let mut found_breaking = false;
    let mut found_feat = false;
    let n = grouped.len();
    proof {
        assert(gv.take(0) =~= Seq::<(Seq<char>, Seq<CommitRec>)>::empty());
    }
    let mut i: usize = 0;
    while i < n
        invariant
            0 <= i <= n,
            n == grouped@.len(),
            gv == gview(grouped@),
            gv.len() == n,
            found_breaking == has_breaking(gv.take(i as int)),
            found_feat == has_feat(gv.take(i as int)),
        decreases n - i,
    {
        proof {
            assert(gv[i as int] == (grouped@[i as int].0@, cseq(grouped@[i as int].1@)));
        }
        let cs = &grouped[i].1;
        let m = cs.len();
        let mut j: usize = 0;
        while j < m
            invariant
                0 <= j <= m,
                0 <= i < n,
                n == grouped@.len(),
                gv == gview(grouped@),
                gv.len() == n,
                cs == grouped@[i as int].1,
                m == cs@.len(),
                gv[i as int].1 == cseq(cs@),
                found_breaking == (has_breaking(gv.take(i as int)) || exists|b: int|
                    0 <= b < j && (#[trigger] gv[i as int].1[b]).breaking),
                found_feat == (has_feat(gv.take(i as int)) || exists|b: int|
                    0 <= b < j && (#[trigger] gv[i as int].1[b]).commit_type == feat_token()),
            decreases m - j,
        {
            let c = &cs[j];
            proof {
                assert(gv[i as int].1[j as int] == c@);
            }
            if c.is_breaking {
                found_breaking = true;
            }
            if str_eq(c.commit_type.as_str(), "feat") {
                found_feat = true;
            }
            j = j + 1;
        }
        proof {
            lemma_take_step_breaking(gv, i as int);
            lemma_take_step_feat(gv, i as int);
            assert(gv[i as int].1.len() == m);
        }
        i = i + 1;
    }
    proof {
        assert(gv.take(n as int) =~= gv);
    }
    if found_breaking {
        Bump::Major
    } else if found_feat {
        Bump::Minor
    } else {
        Bump::Patch
    }
}

/// All commits of a grouped map, in group order.
pub open spec fn all_commits(g: GroupedView) -> Seq<CommitRec>
    decreases g.len(),
{
    if g.len() == 0 {
        Seq::empty()
    } else {
        g[0].1 + all_commits(g.drop_first())
    }
}

/// Whether some commit of a flat sequence is breaking.
pub open spec fn contains_breaking(cs: Seq<CommitRec>) -> bool {
    exists|k: int| 0 <= k < cs.len() && (#[trigger] cs[k]).breaking
}

/// Whether some commit of a flat sequence is a `feat` commit.
pub open spec fn contains_feat(cs: Seq<CommitRec>) -> bool {
    exists|k: int| 0 <= k < cs.len() && (#[trigger] cs[k]).commit_type == feat_token()
}

/// The group-indexed readings of the bump predicates agree with the flat
/// ones over `all_commits`.
pub proof fn lemma_all_commits_bridge(g: GroupedView)
    ensures
        has_breaking(g) == contains_breaking(all_commits(g)),
        has_feat(g) == contains_feat(all_commits(g)),
    decreases g.len(),
{
    if g.len() == 0 {
    } else {
        let rest = g.drop_first();
        lemma_all_commits_bridge(rest);
        let flat = all_commits(g);
        let m = g[0].1.len();
        assert(flat == g[0].1 + all_commits(rest));

        if has_breaking(g) {
            let (a, b): (int, int) = choose|a: int, b: int|
                0 <= a < g.len() && 0 <= b < g[a].1.len() && (#[trigger] g[a].1[b]).breaking;
            if a == 0 {
                assert(flat[b].breaking);
            } else {
                assert(rest[a - 1].1[b].breaking);
                assert(contains_breaking(all_commits(rest)));
                let k = choose|k: int|
                    0 <= k < all_commits(rest).len() && (#[trigger] all_commits(rest)[k]).breaking;
                assert(flat[m + k].breaking);
            }
        }
        if contains_breaking(flat) {
            let k = choose|k: int| 0 <= k < flat.len() && (#[trigger] flat[k]).breaking;
            if k < m {
                assert(g[0].1[k].breaking);
            } else {
                assert(all_commits(rest)[k - m].breaking);
                assert(has_breaking(rest));
                let (a, b): (int, int) = choose|a: int, b: int|
                    0 <= a < rest.len() && 0 <= b < rest[a].1.len() && (#[trigger] rest[a].1[b]).breaking;
                assert(g[a + 1].1[b].breaking);
            }
        }

        if has_feat(g) {
            let (a, b): (int, int) = choose|a: int, b: int|
                0 <= a < g.len() && 0 <= b < g[a].1.len() && (#[trigger] g[a].1[b]).commit_type
                    == feat_token();
            if a == 0 {
                assert(flat[b].commit_type == feat_token());
            } else {
                assert(rest[a - 1].1[b].commit_type == feat_token());
                assert(contains_feat(all_commits(rest)));
                let k = choose|k: int|
                    0 <= k < all_commits(rest).len() && (#[trigger] all_commits(rest)[k]).commit_type
                        == feat_token();
                assert(flat[m + k].commit_type == feat_token());
            }
        }
        if contains_feat(flat) {
            let k = choose|k: int|
                0 <= k < flat.len() && (#[trigger] flat[k]).commit_type == feat_token();
            if k < m {
                assert(g[0].1[k].commit_type == feat_token());
            } else {
                assert(all_commits(rest)[k - m].commit_type == feat_token());
                assert(has_feat(rest));
                let (a, b): (int, int) = choose|a: int, b: int|
                    0 <= a < rest.len() && 0 <= b < rest[a].1.len() && (#[trigger] rest[a].1[b]).commit_type
                        == feat_token();
                assert(g[a + 1].1[b].commit_type == feat_token());
            }
        }
    }
}

/// A flat predicate holds of some element exactly when it holds of some
/// member of the sequence's multiset: breaking commits.
proof fn lemma_multiset_breaking(cs: Seq<CommitRec>)
    ensures
        contains_breaking(cs) == (exists|c: CommitRec|
            #[trigger] cs.to_multiset().contains(c) && c.breaking),
{
    broadcast use group_to_multiset_ensures;

    if contains_breaking(cs) {
        let k = choose|k: int| 0 <= k < cs.len() && (#[trigger] cs[k]).breaking;
        assert(cs.contains(cs[k]));
        assert(cs.to_multiset().contains(cs[k]) && cs[k].breaking);
    }
    if exists|c: CommitRec| #[trigger] cs.to_multiset().contains(c) && c.breaking {
        let c = choose|c: CommitRec| #[trigger] cs.to_multiset().contains(c) && c.breaking;
        assert(cs.contains(c));
        let k = choose|k: int| 0 <= k < cs.len() && cs[k] == c;
        assert(cs[k].breaking);
    }
}

/// The same for `feat` commits.
proof fn lemma_multiset_feat(cs: Seq<CommitRec>)
    ensures
        contains_feat(cs) == (exists|c: CommitRec|
            #[trigger] cs.to_multiset().contains(c) && c.commit_type == feat_token()),
{
    broadcast use group_to_multiset_ensures;

    if contains_feat(cs) {
        let k = choose|k: int| 0 <= k < cs.len() && (#[trigger] cs[k]).commit_type == feat_token();
        assert(cs.contains(cs[k]));
        assert(cs.to_multiset().contains(cs[k]) && cs[k].commit_type == feat_token());
    }
    if exists|c: CommitRec|
        #[trigger] cs.to_multiset().contains(c) && c.commit_type == feat_token() {
        let c = choose|c: CommitRec|
            #[trigger] cs.to_multiset().contains(c) && c.commit_type == feat_token();
        assert(cs.contains(c));
        let k = choose|k: int| 0 <= k < cs.len() && cs[k] == c;
        assert(cs[k].commit_type == feat_token());
    }
}

/// The bump decision is order-independent: two grouped maps holding the same
/// commits as a multiset — however permuted or regrouped — imply the same
/// bump.
pub proof fn lemma_bump_permutation(g1: GroupedView, g2: GroupedView)
    requires
        all_commits(g1).to_multiset() == all_commits(g2).to_multiset(),
    ensures
        spec_bump(g1) == spec_bump(g2),
{
    lemma_all_commits_bridge(g1);
    lemma_all_commits_bridge(g2);
    lemma_multiset_breaking(all_commits(g1));
    lemma_multiset_breaking(all_commits(g2));
    lemma_multiset_feat(all_commits(g1));
    lemma_multiset_feat(all_commits(g2));
}

/// The classified record a raw record yields, or `None` when it does not
/// classify.
pub open spec fn class_of(r: RawRec) -> Option<CommitRec> {
    match spec_classify(r.message) {
        None => None,
        Some(p) => Some(classified_rec(r.id, p)),
    }
}

/// The classified records of a raw sequence, in order, with the
/// unparseable records dropped.
pub open spec fn classified(rs: Seq<RawRec>) -> Seq<CommitRec>
    decreases rs.len(),
{
    if rs.len() == 0 {
        Seq::empty()
    } else {
        let rest = classified(rs.drop_last());
        match class_of(rs.last()) {
            None => rest,
            Some(c) => rest.push(c),
        }
    }
}

/// Appending a group appends its commits to the flattened sequence.
proof fn lemma_all_commits_push(g: GroupedView, p: (Seq<char>, Seq<CommitRec>))
    ensures
        all_commits(g.push(p)) =~= all_commits(g) + p.1,
    decreases g.len(),
{
    if g.len() == 0 {
        assert(g.push(p).drop_first() =~= Seq::<(Seq<char>, Seq<CommitRec>)>::empty());
        assert(g.push(p)[0] == p);
        assert(all_commits(Seq::<(Seq<char>, Seq<CommitRec>)>::empty())
            == Seq::<CommitRec>::empty());
        assert(all_commits(g.push(p)) == p.1 + Seq::<CommitRec>::empty());
        assert(all_commits(g) == Seq::<CommitRec>::empty());
        assert(all_commits(g.push(p)) =~= all_commits(g) + p.1);
    } else {
        assert(g.push(p).drop_first() =~= g.drop_first().push(p));
        lemma_all_commits_push(g.drop_first(), p);
        assert(g.push(p)[0] == g[0]);
        assert(g.push(p).len() != 0);
        assert(all_commits(g.push(p)) == g.push(p)[0].1 + all_commits(g.push(p).drop_first()));
        assert(all_commits(g.push(p).drop_first()) == all_commits(g.drop_first()) + p.1);
        assert(all_commits(g) == g[0].1 + all_commits(g.drop_first()));
        assert(all_commits(g.push(p)) =~= all_commits(g) + p.1);
    }
}

/// Appending one commit to one group adds it to the flattened multiset.
proof fn lemma_all_commits_update(g: GroupedView, i: int, c: CommitRec)
    requires
        0 <= i < g.len(),
    ensures
        all_commits(g.update(i, (g[i].0, g[i].1.push(c)))).to_multiset()
            =~= all_commits(g).to_multiset().insert(c),
    decreases g.len(),
{
    broadcast use group_to_multiset_ensures;
    broadcast use vstd::multiset::group_multiset_axioms;

    let g2 = g.update(i, (g[i].0, g[i].1.push(c)));
    if i == 0 {
        assert(g2[0].1 == g[0].1.push(c));
        assert(g2.drop_first() =~= g.drop_first());
        vstd::seq_lib::lemma_multiset_commutative(g[0].1.push(c), all_commits(g.drop_first()));
        vstd::seq_lib::lemma_multiset_commutative(g[0].1, all_commits(g.drop_first()));
        assert(all_commits(g2) == g[0].1.push(c) + all_commits(g.drop_first()));
        assert(all_commits(g2).to_multiset() =~= all_commits(g).to_multiset().insert(c));
    } else {
        assert(g2[0] == g[0]);
        assert(g2.drop_first() =~= g.drop_first().update(
            i - 1,
            (g.drop_first()[i - 1].0, g.drop_first()[i - 1].1.push(c)),
        ));
        lemma_all_commits_update(g.drop_first(), i - 1, c);
        vstd::seq_lib::lemma_multiset_commutative(g[0].1, all_commits(g2.drop_first()));
        vstd::seq_lib::lemma_multiset_commutative(g[0].1, all_commits(g.drop_first()));
        assert(all_commits(g2) == g[0].1 + all_commits(g2.drop_first()));
        assert(all_commits(g) == g[0].1 + all_commits(g.drop_first()));
        assert(all_commits(g2).to_multiset() =~= all_commits(g).to_multiset().insert(c));
    }
}

/// Inserting one classified commit adds it to the flattened multiset.
proof fn lemma_insert_multiset(g: GroupedView, c: CommitRec)
    ensures
        all_commits(spec_insert(g, c)).to_multiset() =~= all_commits(g).to_multiset().insert(c),
{
    broadcast use group_to_multiset_ensures;
    broadcast use vstd::multiset::group_multiset_axioms;

    lemma_group_index(g, c.commit_type);
    let gi = group_index(g, c.commit_type);
    if gi == g.len() {
        lemma_all_commits_push(g, (c.commit_type, seq![c]));
        assert(all_commits(g) + seq![c] =~= all_commits(g).push(c));
        assert(all_commits(spec_insert(g, c)).to_multiset() =~= all_commits(
            g,
        ).to_multiset().insert(c));
    } else {
        lemma_all_commits_update(g, gi, c);
    }
}

/// The grouped map holds exactly the classified records of the input, as a
/// multiset.
pub proof fn lemma_aggregate_multiset(rs: Seq<RawRec>)
    ensures
        all_commits(spec_aggregate(rs)).to_multiset() =~= classified(rs).to_multiset(),
    decreases rs.len(),
{
    broadcast use group_to_multiset_ensures;

    if rs.len() == 0 {
    } else {
        lemma_aggregate_multiset(rs.drop_last());
        match class_of(rs.last()) {
            None => {},
            Some(c) => {
                lemma_insert_multiset(spec_aggregate(rs.drop_last()), c);
            },
        }
    }
}

/// Removing one raw record removes exactly its classified record, if any,
/// from the classified multiset.
proof fn lemma_classified_remove(rs: Seq<RawRec>, i: int)
    requires
        0 <= i < rs.len(),
    ensures
        classified(rs).to_multiset() =~= match class_of(rs[i]) {
            None => classified(rs.remove(i)).to_multiset(),
            Some(c) => classified(rs.remove(i)).to_multiset().insert(c),
        },
    decreases rs.len(),
{
    broadcast use group_to_multiset_ensures;
    broadcast use vstd::multiset::group_multiset_axioms;

    if i == rs.len() - 1 {
        assert(rs.remove(i) =~= rs.drop_last());
    } else {
        let rsp = rs.drop_last();
        assert(rs.remove(i).drop_last() =~= rsp.remove(i));
        assert(rs.remove(i).last() == rs.last());
        assert(rsp[i] == rs[i]);
        lemma_classified_remove(rsp, i);
        match class_of(rs.last()) {
            None => {
                assert(classified(rs) == classified(rsp));
                assert(classified(rs.remove(i)) == classified(rsp.remove(i)));
            },
            Some(c) => {
                assert(classified(rs) == classified(rsp).push(c));
                assert(classified(rs.remove(i)) == classified(rsp.remove(i)).push(c));
                match class_of(rs[i]) {
                    None => {
                        assert(classified(rs).to_multiset() =~= classified(
                            rs.remove(i),
                        ).to_multiset());
                    },
                    Some(d) => {
                        assert(classified(rs).to_multiset() =~= classified(rsp).to_multiset().insert(
                            c,
                        ));
                        assert(classified(rs.remove(i)).to_multiset() =~= classified(
                            rsp.remove(i),
                        ).to_multiset().insert(c));
                        assert(classified(rs).to_multiset() =~= classified(
                            rs.remove(i),
                        ).to_multiset().insert(d));
                    },
                }
            },
        }
    }
}

/// Inputs equal as multisets classify to equal multisets.
proof fn lemma_classified_permutation(r1: Seq<RawRec>, r2: Seq<RawRec>)
    requires
        r1.to_multiset() == r2.to_multiset(),
    ensures
        classified(r1).to_multiset() == classified(r2).to_multiset(),
    decreases r1.len(),
{
    broadcast use group_to_multiset_ensures;
    broadcast use vstd::multiset::group_multiset_axioms;

    if r1.len() == 0 {
        assert(r1.to_multiset().len() == r1.len());
        assert(r2.to_multiset().len() == r2.len());
        assert(r2.len() == 0);
    } else {
        let x = r1.last();
        assert(r1[r1.len() - 1] == x);
        assert(r1.contains(x));
        assert(r2.to_multiset().count(x) > 0);
        assert(r2.contains(x));
        let j = choose|j: int| 0 <= j < r2.len() && r2[j] == x;
        let r1p = r1.drop_last();
        let r2p = r2.remove(j);
        assert(r1.remove(r1.len() - 1) =~= r1p);
        assert(r1p.to_multiset() =~= r1.to_multiset().remove(x));
        assert(r2p.to_multiset() =~= r2.to_multiset().remove(x));
        lemma_classified_permutation(r1p, r2p);
        lemma_classified_remove(r2, j);
        match class_of(x) {
            None => {
                assert(classified(r1) == classified(r1p));
            },
            Some(c) => {
                assert(classified(r1) == classified(r1p).push(c));
                assert(classified(r1).to_multiset() =~= classified(r1p).to_multiset().insert(c));
            },
        }
    }
}

/// The bump decision is invariant under permutation of the input commit
/// sequence: two raw inputs equal as multisets classify, group, and resolve
/// to the same bump.
pub proof fn lemma_resolve_bump_commutative(r1: Seq<RawRec>, r2: Seq<RawRec>)
    requires
        r1.to_multiset() == r2.to_multiset(),
    ensures
        spec_bump(spec_aggregate(r1)) == spec_bump(spec_aggregate(r2)),
{
    lemma_classified_permutation(r1, r2);
    lemma_aggregate_multiset(r1);
    lemma_aggregate_multiset(r2);
    lemma_bump_permutation(spec_aggregate(r1), spec_aggregate(r2));
}

/// Any batch holding a breaking commit resolves to `Major`, whatever else it
/// holds.
pub proof fn lemma_breaking_implies_major(g: GroupedView)
    requires
        has_breaking(g),
    ensures
        spec_bump(g) == Bump::Major,
{
}

/// A batch without breaking commits but with a `feat` commit resolves to at
/// least `Minor`.
pub proof fn lemma_feat_implies_minor(g: GroupedView)
    requires
        !has_breaking(g),
        has_feat(g),
    ensures
        severity(spec_bump(g)) >= severity(Bump::Minor),
{
}

/// A batch of only non-`feat`, non-breaking commits resolves to `Patch`.
pub proof fn lemma_quiet_batch_is_patch(g: GroupedView)
    requires
        forall|i: int, j: int|
            0 <= i < g.len() && 0 <= j < g[i].1.len() ==> !(#[trigger] g[i].1[j]).breaking && g[i].1[j].commit_type
                != feat_token(),
    ensures
        spec_bump(g) == Bump::Patch,
{
}

/// An empty batch — no commits at all in any group — resolves to `Patch`.
pub proof fn lemma_empty_batch_is_patch(g: GroupedView)
    requires
        all_commits(g).len() == 0,
    ensures
        spec_bump(g) == Bump::Patch,
{
    lemma_all_commits_bridge(g);
}

/// An empty input — no commits since the last release — resolves to
/// `Patch` through the whole pipeline.
pub proof fn lemma_empty_input_is_patch()
    ensures
        spec_bump(spec_aggregate(Seq::<RawRec>::empty())) == Bump::Patch,
{
    assert(spec_aggregate(Seq::<RawRec>::empty()) =~= Seq::<(Seq<char>, Seq<CommitRec>)>::empty());
    lemma_empty_batch_is_patch(spec_aggregate(Seq::<RawRec>::empty()));
}

} // verus!
