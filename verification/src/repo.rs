//! The pure part of reading history: cutting the walked commit records at
//! the release tag. The walk itself — opening the repository, resolving the
//! tag, traversing — is I/O and stays outside the library.

use vstd::prelude::*;

use crate::conv::rviews;
use crate::data::RawCommit;
use crate::data::RawRec;
use crate::text::str_eq;

verus! {

/// Number of leading records whose id differs from `tag_id`: the length of
/// the walked range strictly before the tagged commit.
pub open spec fn cut_index(rs: Seq<RawRec>, tag_id: Seq<char>) -> int
    decreases rs.len(),
{
    if rs.len() == 0 {
        0
    } else if rs[0].id == tag_id {
        0
    } else {
        1 + cut_index(rs.drop_first(), tag_id)
    }
}

/// `cut_index` points at the first record with id `tag_id`, or at the end.
pub proof fn lemma_cut_index(rs: Seq<RawRec>, tag_id: Seq<char>)
    ensures
        0 <= cut_index(rs, tag_id) <= rs.len(),
        forall|k: int| 0 <= k < cut_index(rs, tag_id) ==> (#[trigger] rs[k]).id != tag_id,
        cut_index(rs, tag_id) < rs.len() ==> rs[cut_index(rs, tag_id)].id == tag_id,
    decreases rs.len(),
{
    if rs.len() == 0 || rs[0].id == tag_id {
    } else {
        lemma_cut_index(rs.drop_first(), tag_id);
        let ci = cut_index(rs, tag_id);
        assert forall|k: int| 0 <= k < ci implies (#[trigger] rs[k]).id != tag_id by {
            if k >= 1 {
                assert(rs.drop_first()[k - 1] == rs[k]);
            }
        }
        if ci < rs.len() {
            assert(rs.drop_first()[ci - 1] == rs[ci]);
        }
    }
}

/// A position before which no record carries `tag_id`, and which does or is
/// the end, is exactly `cut_index`.
pub proof fn lemma_cut_index_unique(rs: Seq<RawRec>, tag_id: Seq<char>, i: int)
    requires
        0 <= i <= rs.len(),
        forall|k: int| 0 <= k < i ==> (#[trigger] rs[k]).id != tag_id,
        i < rs.len() ==> rs[i].id == tag_id,
    ensures
        cut_index(rs, tag_id) == i,
{
    lemma_cut_index(rs, tag_id);
    let ci = cut_index(rs, tag_id);
    if ci < i {
        assert(rs[ci].id != tag_id);
    }
    if i < ci {
        assert(rs[i].id != tag_id);
    }
}

/// The records a walk yields between the tag and the head: the walked
/// records (newest first) strictly before the first one whose id is
/// `tag_id`, reversed to oldest-first order.
pub open spec fn spec_commits_until(rs: Seq<RawRec>, tag_id: Seq<char>) -> Seq<RawRec> {
    rs.take(cut_index(rs, tag_id)).reverse()
}

/// Cut the walked records (newest first) at the tagged commit and return
/// the range above it, oldest first.
pub fn commits_until_tag(commits: &Vec<RawCommit>, tag_id: &str) -> (r: Vec<RawCommit>)
    ensures
        rviews(r@) == spec_commits_until(rviews(commits@), tag_id@),
{
    let ghost rv = rviews(commits@);
    let n = commits.len();
    let mut cut: usize = n;
    let mut i: usize = 0;
    while i < n
        invariant
            0 <= i <= n,
            cut <= n,
            n == commits@.len(),
            rv == rviews(commits@),
            cut == n ==> forall|k: int| 0 <= k < i ==> (#[trigger] rv[k]).id != tag_id@,
            cut < n ==> (rv[cut as int].id == tag_id@ && forall|k: int|
                0 <= k < cut ==> (#[trigger] rv[k]).id != tag_id@),
        decreases n - i,
    {
        if cut == n && str_eq(commits[i].id.as_str(), tag_id) {
            cut = i;
        }
        i = i + 1;
    }
    proof {
        lemma_cut_index_unique(rv, tag_id@, cut as int);
    }
    let mut out: Vec<RawCommit> = Vec::new();
    proof {
        assert(rviews(out@) =~= rv.take(cut as int).reverse().take(0));
    }
    let mut j: usize = 0;
    while j < cut
        invariant
            0 <= j <= cut <= n,
            n == commits@.len(),
            rv == rviews(commits@),
            out@.len() == j,
            rviews(out@) == rv.take(cut as int).reverse().take(j as int),
        decreases cut - j,
    {
        let src = &commits[cut - 1 - j];
        let copied = RawCommit { id: src.id.clone(), message: src.message.clone() };
        proof {
            assert(copied@ == rv[cut - 1 - j]);
            assert(rv.take(cut as int).reverse()[j as int] == rv.take(cut as int)[cut - 1 - j]);
            assert(rviews(out@).push(copied@) =~= rv.take(cut as int).reverse().take(j + 1));
            assert(rviews(out@.push(copied)) =~= rviews(out@).push(copied@));
        }
        out.push(copied);
        j = j + 1;
    }
    proof {
        assert(rv.take(cut as int).reverse().take(cut as int) =~= rv.take(cut as int).reverse());
    }
    out
}

} // verus!
