//! Semantic-version triples: parsing version tags (through the semver
//! crate), picking the highest among a set of tags, and applying a resolved
//! bump to a prior version.

use vstd::prelude::*;

use crate::data::Bump;

verus! {

/// A semantic version triple. Pre-release and build metadata play no part in
/// the bump arithmetic and are not modeled.
#[derive(Debug, PartialEq, Eq, Structural, Clone, Copy)]
pub struct Version {
    pub major: u64,
    pub minor: u64,
    pub patch: u64,
}

/// The triple the semantic-version grammar assigns to a tag, or `None` when
/// the tag is not a semantic version.
pub uninterp spec fn spec_semver_of(s: Seq<char>) -> Option<(u64, u64, u64)>;

/// Relies on `semver::Version::parse`: the result is a function of the text
/// alone; it returns the parsed version or an error and never panics. A
/// parseable tag yields its numeric triple; pre-release and build metadata
/// are accepted and dropped.
#[verifier::external_body]
fn parse_version_tag(s: &str) -> (r: Option<Version>)
    ensures
        match r {
            Some(v) => spec_semver_of(s@) == Some((v.major, v.minor, v.patch)),
            None => spec_semver_of(s@) is None,
        },
{
    match semver::Version::parse(s) {
        Ok(v) => Some(Version { major: v.major, minor: v.minor, patch: v.patch }),
        Err(_) => None,
    }
}

/// Precedence order of two version triples: by major, then minor, then
/// patch.
pub open spec fn spec_version_le(a: (u64, u64, u64), b: (u64, u64, u64)) -> bool {
    a.0 < b.0 || (a.0 == b.0 && (a.1 < b.1 || (a.1 == b.1 && a.2 <= b.2)))
}

/// Abstract values of a sequence of tag names.
pub open spec fn tviews(ts: Seq<String>) -> Seq<Seq<char>> {
    ts.map_values(|t: String| t@)
}

/// The highest version triple among the parseable tags, scanning in order;
/// `None` when no tag parses.
pub open spec fn spec_latest(ts: Seq<Seq<char>>) -> Option<(u64, u64, u64)>
    decreases ts.len(),
{
    if ts.len() == 0 {
        None
    } else {
        let prev = spec_latest(ts.drop_last());
        match spec_semver_of(ts.last()) {
            None => prev,
            Some(v) => match prev {
                None => Some(v),
                Some(w) => if spec_version_le(w, v) {
                    Some(v)
                } else {
                    Some(w)
                },
            },
        }
    }
}

/// Whether `a` precedes or equals `b` in version order.
pub fn version_le(a: &Version, b: &Version) -> (r: bool)
    ensures
        r == spec_version_le((a.major, a.minor, a.patch), (b.major, b.minor, b.patch)),
{
    a.major < b.major || (a.major == b.major && (a.minor < b.minor || (a.minor == b.minor
        && a.patch <= b.patch)))
}

/// The highest semantic version among the tags, taken as the maximum of all
/// tags parseable as semantic versions; `None` when no tag parses.
pub fn get_latest_version(tags: &Vec<String>) -> (r: Option<Version>)
    ensures
        match r {
            Some(v) => spec_latest(tviews(tags@)) == Some((v.major, v.minor, v.patch)),
            None => spec_latest(tviews(tags@)) is None,
        },
{
    let mut best: Option<Version> = None;
    let n = tags.len();
    proof {
        assert(tviews(tags@.take(0)) =~= Seq::<Seq<char>>::empty());
    }
    let mut i: usize = 0;
    while i < n
        invariant
            0 <= i <= n,
            n == tags@.len(),
            match best {
                Some(v) => spec_latest(tviews(tags@.take(i as int))) == Some(
                    (v.major, v.minor, v.patch),
                ),
                None => spec_latest(tviews(tags@.take(i as int))) is None,
            },
        decreases n - i,
    {
        let ghost pre = tviews(tags@.take(i as int));
        let ghost post = tviews(tags@.take(i + 1));
        proof {
            assert(post.drop_last() =~= pre);
            assert(post.last() == tags@[i as int]@);
        }
        let parsed = parse_version_tag(tags[i].as_str());
        match parsed {
            None => {},
            Some(v) => {
                match &best {
                    None => {
                        best = Some(v);
                    },
                    Some(w) => {
                        if version_le(w, &v) {
                            best = Some(v);
                        }
                    },
                }
            },
        }
        i = i + 1;
    }
    proof {
        assert(tags@.take(n as int) =~= tags@);
    }
    best
}

/// Apply a resolved bump to a prior version by the standard increment
/// rules: bump major means major+1 with minor and patch reset; bump minor
/// means minor+1 with patch reset; bump patch means patch+1.
pub fn next_version(prior: &Version, bump: Bump) -> (r: Version)
    requires
        bump == Bump::Major ==> prior.major < u64::MAX,
        bump == Bump::Minor ==> prior.minor < u64::MAX,
        bump == Bump::Patch ==> prior.patch < u64::MAX,
    ensures
        bump == Bump::Major ==> r == (Version {
            major: (prior.major + 1) as u64,
            minor: 0u64,
            patch: 0u64,
        }),
        bump == Bump::Minor ==> r == (Version {
            major: prior.major,
            minor: (prior.minor + 1) as u64,
            patch: 0u64,
        }),
        bump == Bump::Patch ==> r == (Version {
            major: prior.major,
            minor: prior.minor,
            patch: (prior.patch + 1) as u64,
        }),
{
    match bump {
        Bump::Major => Version { major: prior.major + 1, minor: 0, patch: 0 },
        Bump::Minor => Version { major: prior.major, minor: prior.minor + 1, patch: 0 },
        Bump::Patch => Version { major: prior.major, minor: prior.minor, patch: prior.patch + 1 },
    }
}

} // verus!
