//! Small verified helpers over strings: scanning for a character, comparing
//! slices, matching a pattern at a position, substituting the `{id}`
//! placeholder of a URL template, and splitting a `key=value` pair.

use vstd::prelude::*;
use vstd::string::StrSliceExecFns;
use vstd::string::StringExecFns;

verus! {

/// Index of the first occurrence of `c` in `s`, or `s.len()` if `c` is absent.
pub open spec fn first_index_of(s: Seq<char>, c: char) -> int
    decreases s.len(),
{
    if s.len() == 0 {
        0
    } else if s[0] == c {
        0
    } else {
        1 + first_index_of(s.drop_first(), c)
    }
}

/// `first_index_of` points at the first occurrence of `c`, or at the end.
pub proof fn lemma_first_index_of(s: Seq<char>, c: char)
    ensures
        0 <= first_index_of(s, c) <= s.len(),
        forall|k: int| 0 <= k < first_index_of(s, c) ==> s[k] != c,
        first_index_of(s, c) < s.len() ==> s[first_index_of(s, c)] == c,
    decreases s.len(),
{
    if s.len() == 0 {
    } else if s[0] == c {
    } else {
        lemma_first_index_of(s.drop_first(), c);
        let fi = first_index_of(s, c);
        assert forall|k: int| 0 <= k < fi implies s[k] != c by {
            if k >= 1 {
                assert(s.drop_first()[k - 1] == s[k]);
            }
        }
        if fi < s.len() {
            assert(s.drop_first()[fi - 1] == s[fi]);
        }
    }
}

/// A position before which `c` does not occur, and which holds `c` or is the
/// end, is exactly `first_index_of`.
pub proof fn lemma_first_index_of_unique(s: Seq<char>, c: char, i: int)
    requires
        0 <= i <= s.len(),
        forall|k: int| 0 <= k < i ==> s[k] != c,
        i < s.len() ==> s[i] == c,
    ensures
        first_index_of(s, c) == i,
{
    lemma_first_index_of(s, c);
    let fi = first_index_of(s, c);
    if fi < i {
        assert(s[fi] == c);
        assert(s[fi] != c);
    }
    if i < fi {
        assert(s[i] != c);
    }
}

/// First index of `c` in `s`, or the length of `s` when `c` does not occur.
pub fn find_char(s: &str, c: char) -> (r: usize)
    ensures
        r == first_index_of(s@, c),
{
    let n = s.unicode_len();
    let mut i: usize = 0;
    while i < n
        invariant
            0 <= i <= n,
            n == s@.len(),
            forall|k: int| 0 <= k < i ==> s@[k] != c,
        decreases n - i,
    {
        if s.get_char(i) == c {
            proof {
                lemma_first_index_of_unique(s@, c, i as int);
            }
            return i;
        }
        i = i + 1;
    }
    proof {
        lemma_first_index_of_unique(s@, c, n as int);
    }
    n
}

/// Character-wise equality of two string slices.
pub fn str_eq(a: &str, b: &str) -> (r: bool)
    ensures
        r == (a@ == b@),
{
    let na = a.unicode_len();
    let nb = b.unicode_len();
    if na != nb {
        return false;
    }
    let mut i: usize = 0;
    while i < na
        invariant
            0 <= i <= na,
            na == a@.len(),
            na == b@.len(),
            forall|k: int| 0 <= k < i ==> a@[k] == b@[k],
        decreases na - i,
    {
        if a.get_char(i) != b.get_char(i) {
            return false;
        }
        i = i + 1;
    }
    proof {
        assert(a@ =~= b@);
    }
    true
}

/// Whether `pat` occurs in `s` starting at position `i`.
pub fn match_at(s: &str, i: usize, pat: &str) -> (r: bool)
    requires
        i + pat@.len() <= s@.len(),
        s@.len() <= usize::MAX,
    ensures
        r == (s@.subrange(i as int, i + pat@.len()) == pat@),
{
    let m = pat.unicode_len();
    let mut k: usize = 0;
    while k < m
        invariant
            0 <= k <= m,
            m == pat@.len(),
            i + m <= s@.len() <= usize::MAX,
            forall|j: int| 0 <= j < k ==> s@[i + j] == pat@[j],
        decreases m - k,
    {
        if s.get_char(i + k) != pat.get_char(k) {
            proof {
                assert(s@.subrange(i as int, i + pat@.len())[k as int] != pat@[k as int]);
            }
            return false;
        }
        k = k + 1;
    }
    proof {
        assert(s@.subrange(i as int, i + pat@.len()) =~= pat@);
    }
    true
}

/// The commit-identifier placeholder recognized inside a URL template.
pub open spec fn id_placeholder() -> Seq<char> {
    "{id}"@
}

/// `tpl` with every occurrence of `{id}` replaced by `id`, scanning left to
/// right.
pub open spec fn spec_replace_id(tpl: Seq<char>, id: Seq<char>) -> Seq<char>
    decreases tpl.len(),
{
    if tpl.len() == 0 {
        tpl
    } else if tpl.len() >= 4 && tpl.subrange(0, 4) == id_placeholder() {
        id + spec_replace_id(tpl.skip(4), id)
    } else {
        seq![tpl[0]] + spec_replace_id(tpl.skip(1), id)
    }
}

/// Substitute the commit identifier for each `{id}` placeholder of a URL
/// template.
pub fn replace_id(tpl: &str, id: &str) -> (r: String)
    ensures
        r@ == spec_replace_id(tpl@, id@),
{
    proof {
        reveal_strlit("{id}");
    }
    let n = tpl.unicode_len();
    let mut out = String::new();
    proof {
        assert(tpl@.skip(0) =~= tpl@);
        assert(out@ + spec_replace_id(tpl@, id@) =~= spec_replace_id(tpl@, id@));
    }
    let mut i: usize = 0;
    while i < n
        invariant
            0 <= i <= n,
            n == tpl@.len(),
            out@ + spec_replace_id(tpl@.skip(i as int), id@) == spec_replace_id(tpl@, id@),
        decreases n - i,
    {
        let ghost rest = tpl@.skip(i as int);
        proof {
            reveal_strlit("{id}");
        }
        if n - i >= 4 && match_at(tpl, i, "{id}") {
            proof {
                assert(rest.subrange(0, 4) =~= tpl@.subrange(i as int, i + 4));
                assert(rest.skip(4) =~= tpl@.skip(i + 4));
                assert(out@ + (id@ + spec_replace_id(rest.skip(4), id@)) =~= (out@ + id@)
                    + spec_replace_id(tpl@.skip(i + 4), id@));
            }
            out.append(id);
            i = i + 4;
        } else {
            proof {
                assert(rest.len() > 0 && rest[0] == tpl@[i as int]);
                if rest.len() >= 4 {
                    assert(rest.subrange(0, 4) =~= tpl@.subrange(i as int, i + 4));
                }
                assert(rest.skip(1) =~= tpl@.skip(i + 1));
                assert(tpl@.subrange(i as int, i + 1) =~= seq![rest[0]]);
                assert(out@ + (seq![rest[0]] + spec_replace_id(rest.skip(1), id@)) =~= (out@
                    + tpl@.subrange(i as int, i + 1)) + spec_replace_id(tpl@.skip(i + 1), id@));
            }
            let piece = tpl.substring_char(i, i + 1);
            out.append(piece);
            i = i + 1;
        }
    }
    proof {
        assert(tpl@.skip(n as int) =~= Seq::<char>::empty());
        assert(out@ + Seq::<char>::empty() =~= out@);
    }
    out
}

/// Split `s` at its first `=` into a key and a value; a string without `=` is
/// rejected.
pub fn parse_key_val(s: &str) -> (r: Result<(String, String), String>)
    ensures
        first_index_of(s@, '=') < s@.len() ==> (r matches Ok(p) && p.0@ == s@.take(
            first_index_of(s@, '='),
        ) && p.1@ == s@.skip(first_index_of(s@, '=') + 1)),
        first_index_of(s@, '=') == s@.len() ==> r is Err,
{
    proof {
        lemma_first_index_of(s@, '=');
    }
    let n = s.unicode_len();
    let pos = find_char(s, '=');
    if pos < n {
        let key = s.substring_char(0, pos);
        let val = s.substring_char(pos + 1, n);
        proof {
            assert(key@ =~= s@.take(pos as int));
            assert(val@ =~= s@.skip(pos + 1));
        }
        Ok((key.to_owned(), val.to_owned()))
    } else {
        Err("invalid KEY=value: no `=` found".to_owned())
    }
}

} // verus!
