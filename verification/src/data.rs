//! Data model of the engine: raw commit records, classified commits, the
//! rendering configuration, and the commit classifier.
//!
//! A raw message is classified against the conventional-commit grammar
//! `type[(scope)][!]: description` on its header line. The type token is a
//! run of lowercase ASCII letters, digits, `-` or `_`; the scope is any
//! non-empty text up to the closing parenthesis; the header must carry the
//! colon-space separator before the description. A commit is breaking when
//! its type carries the `!` marker or when some line below the header opens
//! with `BREAKING CHANGE:` or `BREAKING-CHANGE:`.

use vstd::prelude::*;
use vstd::string::StrSliceExecFns;

use crate::text::first_index_of;
use crate::text::lemma_first_index_of;
use crate::text::lemma_first_index_of_unique;
use crate::text::find_char;
use crate::text::match_at;

verus! {

/// One raw commit record as the history reader hands it in: a content
/// identifier and the free-text message.
pub struct RawCommit {
    pub id: String,
    pub message: String,
}

/// Abstract value of a raw commit record.
pub ghost struct RawRec {
    pub id: Seq<char>,
    pub message: Seq<char>,
}

impl View for RawCommit {
    type V = RawRec;

    open spec fn view(&self) -> RawRec {
        RawRec { id: self.id@, message: self.message@ }
    }
}

/// The parts that classifying one raw message yields.
pub ghost struct Parsed {
    pub commit_type: Seq<char>,
    pub scope: Option<Seq<char>>,
    pub description: Seq<char>,
    pub breaking: bool,
}

/// One classified commit: the structured form of a parseable raw commit.
#[derive(Debug)]
pub struct IdConventionalCommit {
    pub id: String,
    pub commit_type: String,
    pub scope: Option<String>,
    pub description: String,
    pub is_breaking: bool,
}

/// Abstract value of a classified commit.
pub ghost struct CommitRec {
    pub id: Seq<char>,
    pub commit_type: Seq<char>,
    pub scope: Option<Seq<char>>,
    pub description: Seq<char>,
    pub breaking: bool,
}

impl View for IdConventionalCommit {
    type V = CommitRec;

    open spec fn view(&self) -> CommitRec {
        CommitRec {
            id: self.id@,
            commit_type: self.commit_type@,
            scope: match self.scope {
                Some(s) => Some(s@),
                None => None,
            },
            description: self.description@,
            breaking: self.is_breaking,
        }
    }
}

/// The magnitude of the version increment implied by a batch of commits,
/// totally ordered by severity: `Major > Minor > Patch`.
#[derive(Debug, PartialEq, Eq, Structural, Clone, Copy)]
pub enum Bump {
    Major,
    Minor,
    Patch,
}

/// Severity rank of a bump level; higher means a larger increment.
pub open spec fn severity(b: Bump) -> int {
    match b {
        Bump::Major => 2,
        Bump::Minor => 1,
        Bump::Patch => 0,
    }
}

/// Why a raw message was rejected: it does not match the grammar.
#[derive(Debug, PartialEq, Eq, Structural, Clone, Copy)]
pub enum ClassificationError {
    Unparseable,
}

/// Rendering configuration: the type-to-heading map (a type without an entry
/// is suppressed from the changelog) and the optional commit URL template
/// holding an `{id}` placeholder.
pub struct Config {
    pub headings: Vec<(String, String)>,
    pub repo_commit_url_tpl: Option<String>,
}

/// Abstract value of the configuration.
pub ghost struct ConfigRec {
    pub headings: Seq<(Seq<char>, Seq<char>)>,
    pub repo_commit_url_tpl: Option<Seq<char>>,
}

impl View for Config {
    type V = ConfigRec;

    open spec fn view(&self) -> ConfigRec {
        ConfigRec {
            headings: self.headings@.map_values(|p: (String, String)| (p.0@, p.1@)),
            repo_commit_url_tpl: match self.repo_commit_url_tpl {
                Some(s) => Some(s@),
                None => None,
            },
        }
    }
}

/// Label under `k` in the heading map, if any; the first pair with the key
/// decides.
pub open spec fn spec_lookup(hs: Seq<(Seq<char>, Seq<char>)>, k: Seq<char>) -> Option<Seq<char>>
    decreases hs.len(),
{
    if hs.len() == 0 {
        None
    } else if hs[0].0 == k {
        Some(hs[0].1)
    } else {
        spec_lookup(hs.drop_first(), k)
    }
}

/// Heading label configured for a commit type, if any.
pub fn lookup_heading(config: &Config, key: &str) -> (r: Option<String>)
    ensures
        match r {
            Some(v) => spec_lookup(config@.headings, key@) == Some(v@),
            None => spec_lookup(config@.headings, key@) is None,
        },
{
    let ghost hs = config@.headings;
    let n = config.headings.len();
    proof {
        assert(hs.skip(0) =~= hs);
    }
    let mut i: usize = 0;
    while i < n
        invariant
            0 <= i <= n,
            n == config.headings.len(),
            hs == config@.headings,
            hs.len() == n,
            spec_lookup(hs, key@) == spec_lookup(hs.skip(i as int), key@),
        decreases n - i,
    {
        proof {
            assert(hs[i as int] == (config.headings@[i as int].0@, config.headings@[i as int].1@));
        }
        let pair = &config.headings[i];
        if crate::text::str_eq(pair.0.as_str(), key) {
            proof {
                assert(hs.skip(i as int)[0] == hs[i as int]);
            }
            return Some(pair.1.clone());
        }
        proof {
            assert(hs.skip(i as int)[0] == hs[i as int]);
            assert(hs.skip(i as int).drop_first() =~= hs.skip(i + 1));
        }
        i = i + 1;
    }
    proof {
        assert(hs.skip(n as int) =~= Seq::<(Seq<char>, Seq<char>)>::empty());
    }
    None
}

/// A character that may stand in a commit type token.
pub open spec fn is_type_char(c: char) -> bool {
    ('a' <= c && c <= 'z') || ('0' <= c && c <= '9') || c == '-' || c == '_'
}

/// Length of the leading run of type characters of `s`.
pub open spec fn type_run(s: Seq<char>) -> int
    decreases s.len(),
{
    if s.len() == 0 {
        0
    } else if !is_type_char(s[0]) {
        0
    } else {
        1 + type_run(s.drop_first())
    }
}

/// `type_run` spans exactly the leading type characters.
pub proof fn lemma_type_run(s: Seq<char>)
    ensures
        0 <= type_run(s) <= s.len(),
        forall|k: int| 0 <= k < type_run(s) ==> is_type_char(s[k]),
        type_run(s) < s.len() ==> !is_type_char(s[type_run(s)]),
    decreases s.len(),
{
    if s.len() == 0 || !is_type_char(s[0]) {
    } else {
        lemma_type_run(s.drop_first());
        let tr = type_run(s);
        assert forall|k: int| 0 <= k < tr implies is_type_char(s[k]) by {
            if k >= 1 {
                assert(s.drop_first()[k - 1] == s[k]);
            }
        }
        if tr < s.len() {
            assert(s.drop_first()[tr - 1] == s[tr]);
        }
    }
}

/// A position up to which every character is a type character, and which
/// holds none or is the end, is exactly `type_run`.
pub proof fn lemma_type_run_unique(s: Seq<char>, i: int)
    requires
        0 <= i <= s.len(),
        forall|k: int| 0 <= k < i ==> is_type_char(s[k]),
        i < s.len() ==> !is_type_char(s[i]),
    ensures
        type_run(s) == i,
{
    lemma_type_run(s);
    let tr = type_run(s);
    if tr < i {
        assert(is_type_char(s[tr]));
    }
    if i < tr {
        assert(is_type_char(s[i]));
    }
}

/// Rest of the header from position `i`: an optional `!` marker, then the
/// colon-space separator, then the description.
pub open spec fn spec_parse_tail(
    h: Seq<char>,
    i: int,
    commit_type: Seq<char>,
    scope: Option<Seq<char>>,
) -> Option<Parsed> {
    let bang = i < h.len() && h[i] == '!';
    let j = if bang {
        i + 1
    } else {
        i
    };
    if j + 2 <= h.len() && h[j] == ':' && h[j + 1] == ' ' {
        Some(Parsed { commit_type, scope, description: h.skip(j + 2), breaking: bang })
    } else {
        None
    }
}

/// Parse of one header line against `type[(scope)][!]: description`.
pub open spec fn spec_parse_header(h: Seq<char>) -> Option<Parsed> {
    let te = type_run(h);
    if te == 0 {
        None
    } else if te < h.len() && h[te] == '(' {
        let ce = te + 1 + first_index_of(h.skip(te + 1), ')');
        if ce >= h.len() || ce == te + 1 {
            None
        } else {
            spec_parse_tail(h, ce + 1, h.take(te), Some(h.subrange(te + 1, ce)))
        }
    } else {
        spec_parse_tail(h, te, h.take(te), None)
    }
}

/// Position of the end of the header line: the first newline, or the end.
pub open spec fn header_end(msg: Seq<char>) -> int {
    first_index_of(msg, '\n')
}

/// Footer marker with a space; 16 characters, as is the dashed one.
pub open spec fn breaking_marker_space() -> Seq<char> {
    "BREAKING CHANGE:"@
}

/// Footer marker with a dash.
pub open spec fn breaking_marker_dash() -> Seq<char> {
    "BREAKING-CHANGE:"@
}

/// Whether some line below the header opens with a breaking-change marker.
pub open spec fn has_breaking_footer(msg: Seq<char>) -> bool {
    exists|i: int|
        header_end(msg) < i && i + 16 <= msg.len() && msg[i - 1] == '\n' && (#[trigger] msg.subrange(
            i,
            i + 16,
        ) == breaking_marker_space() || msg.subrange(i, i + 16) == breaking_marker_dash())
}

/// Classification of one raw message: the parse of its header line, with
/// `breaking` also set by a breaking-change footer.
pub open spec fn spec_classify(msg: Seq<char>) -> Option<Parsed> {
    match spec_parse_header(msg.take(header_end(msg))) {
        None => None,
        Some(p) => Some(
            Parsed {
                commit_type: p.commit_type,
                scope: p.scope,
                description: p.description,
                breaking: p.breaking || has_breaking_footer(msg),
            },
        ),
    }
}

/// Whether `c` may stand in a commit type token.
fn type_char(c: char) -> (r: bool)
    ensures
        r == is_type_char(c),
{
    ('a' <= c && c <= 'z') || ('0' <= c && c <= '9') || c == '-' || c == '_'
}

impl IdConventionalCommit {
    /// Classify one raw commit record. Returns the structured commit exactly
    /// when the message matches the grammar, and `Unparseable` otherwise.
    pub fn from_commit(commit: &RawCommit) -> (r: Result<IdConventionalCommit, ClassificationError>)
        ensures
            match r {
                Ok(c) => spec_classify(commit.message@) == Some(
                    Parsed {
                        commit_type: c@.commit_type,
                        scope: c@.scope,
                        description: c@.description,
                        breaking: c@.breaking,
                    },
                ) && c@.id == commit@.id,
                Err(e) => spec_classify(commit.message@) is None && e
                    == ClassificationError::Unparseable,
            },
    {
        let msg = commit.message.as_str();
        let n = msg.unicode_len();
        let he = find_char(msg, '\n');
        proof {
            lemma_first_index_of(msg@, '\n');
        }
        let ghost h = msg@.take(he as int);

        // Leading run of type characters.
        let mut te: usize = 0;
        while te < he && type_char(msg.get_char(te))
            invariant
                0 <= te <= he <= n,
                n == msg@.len(),
                he == header_end(msg@),
                h == msg@.take(he as int),
                forall|k: int| 0 <= k < te ==> is_type_char(h[k]),
            decreases he - te,
        {
            te = te + 1;
        }
        proof {
            lemma_type_run_unique(h, te as int);
        }
        if te == 0 {
            return Err(ClassificationError::Unparseable);
        }

        // Optional parenthesized scope.
        let has_scope = te < he && msg.get_char(te) == '(';
        let mut scope: Option<String> = None;
        let mut after: usize = te;
        if has_scope {
            let mut ce: usize = te + 1;
            while ce < he && msg.get_char(ce) != ')'
                invariant
                    te + 1 <= ce <= he <= n,
                    n == msg@.len(),
                    he == header_end(msg@),
                    h == msg@.take(he as int),
                    forall|k: int| te + 1 <= k < ce ==> h[k] != ')',
                decreases he - ce,
            {
                ce = ce + 1;
            }
            proof {
                assert forall|m: int| 0 <= m < ce - (te + 1) implies #[trigger] h.skip(te + 1)[m]
                    != ')' by {
                    assert(h.skip(te + 1)[m] == h[te + 1 + m]);
                }
                if ce < he {
                    assert(h.skip(te + 1)[ce - (te + 1)] == h[ce as int]);
                }
                lemma_first_index_of_unique(h.skip(te + 1), ')', ce - (te + 1));
            }
            if ce == he || ce == te + 1 {
                return Err(ClassificationError::Unparseable);
            }
            let sc = msg.substring_char(te + 1, ce);
            proof {
                assert(sc@ =~= h.subrange(te + 1, ce as int));
            }
            scope = Some(sc.to_owned());
            after = ce + 1;
        }

        // Optional `!` marker, then the colon-space separator.
        let bang = after < he && msg.get_char(after) == '!';
        let j = if bang {
            after + 1
        } else {
            after
        };
        if !(he - j >= 2 && msg.get_char(j) == ':' && msg.get_char(j + 1) == ' ') {
            return Err(ClassificationError::Unparseable);
        }
        let desc = msg.substring_char(j + 2, he);
        let ty = msg.substring_char(0, te);
        proof {
            assert(desc@ =~= h.skip(j + 2));
            assert(ty@ =~= h.take(te as int));
        }

        // Breaking-change footer: a line below the header opening with a
        // marker.
        proof {
            reveal_strlit("BREAKING CHANGE:");
            reveal_strlit("BREAKING-CHANGE:");
            assert(breaking_marker_space().len() == 16);
            assert(breaking_marker_dash().len() == 16);
        }
        let mut has_footer = false;
        let mut p: usize = he;
        while p < n
            invariant
                he <= p <= n,
                n == msg@.len(),
                he == header_end(msg@),
                breaking_marker_space().len() == 16,
                breaking_marker_dash().len() == 16,
                has_footer == exists|i: int|
                    he < i <= p && i + 16 <= n && msg@[i - 1] == '\n' && (#[trigger] msg@.subrange(
                        i,
                        i + 16,
                    ) == breaking_marker_space() || msg@.subrange(i, i + 16)
                        == breaking_marker_dash()),
            decreases n - p,
        {
            if msg.get_char(p) == '\n' && n - p >= 17 && (match_at(msg, p + 1, "BREAKING CHANGE:")
                || match_at(msg, p + 1, "BREAKING-CHANGE:")) {
                proof {
                    let i = p + 1;
                    assert(he < i <= p + 1 && i + 16 <= n && msg@[i - 1] == '\n' && (msg@.subrange(
                        i as int,
                        i + 16,
                    ) == breaking_marker_space() || msg@.subrange(i as int, i + 16)
                        == breaking_marker_dash()));
                }
                has_footer = true;
            }
            p = p + 1;
        }
        proof {
            assert(has_footer == has_breaking_footer(msg@));
        }

        let c = IdConventionalCommit {
            id: commit.id.clone(),
            commit_type: ty.to_owned(),
            scope,
            description: desc.to_owned(),
            is_breaking: bang || has_footer,
        };
        Ok(c)
    }
}

} // verus!
