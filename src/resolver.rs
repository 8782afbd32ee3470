use vstd::prelude::*;
use crate::error::ResolveError;
use crate::npm::{NpmPackageUnspecifiedVersion, VersionsObj};
use crate::semver::SemanticVersion;
use crate::types::PackageVersionInfo;

verus! {

/// The release numbers that node-semver reads from a version string, or `None` where
/// it refuses the string.
pub uninterp spec fn semver_release(s: Seq<char>) -> Option<(u64, u64, u64)>;

/// Relies on node_semver::Version::parse: it reads a version string (an optional `v`,
/// `major.minor.patch`, optional pre-release and build parts) and never panics; the
/// outcome depends on the text alone.
#[verifier::external_body]
fn parse_release(s: &str) -> (r: Option<(u64, u64, u64)>)
    ensures
        r == semver_release(s@),
{
    node_semver::Version::parse(s).ok().map(|v| (v.major, v.minor, v.patch))
}

/// A search tier of the resolver, relative to the normalized version.
#[derive(Clone, Copy, Debug, PartialEq, Eq, Structural)]
pub enum Tier {
    /// Same major and minor, higher patch.
    Patch,
    /// Same major, higher minor.
    Minor,
    /// Higher major.
    Major,
}

impl Tier {
    pub open spec fn holds(self, v: SemanticVersion, n: SemanticVersion) -> bool {
        match self {
            Tier::Patch => v.major == n.major && v.minor == n.minor && v.patch > n.patch,
            Tier::Minor => v.major == n.major && v.minor > n.minor,
            Tier::Major => v.major > n.major,
        }
    }

    /// Whether `v` falls in this tier above `n`.
    pub fn contains(&self, v: &SemanticVersion, n: &SemanticVersion) -> (r: bool)
        ensures
            r == self.holds(*v, *n),
    {
        match self {
            Tier::Patch => v.major == n.major && v.minor == n.minor && v.patch > n.patch,
            Tier::Minor => v.major == n.major && v.minor > n.minor,
            Tier::Major => v.major > n.major,
        }
    }
}

/// Entry `j` of the parsed catalog exists and falls in `tier` above `n`.
pub open spec fn in_tier(p: Seq<Option<SemanticVersion>>, j: int, tier: Tier, n: SemanticVersion) -> bool {
    0 <= j < p.len() && p[j] is Some && tier.holds(p[j]->0, n)
}

/// Entry `i` is the highest of its tier, and the first entry with that version.
pub open spec fn is_top(p: Seq<Option<SemanticVersion>>, i: int, tier: Tier, n: SemanticVersion) -> bool {
    &&& in_tier(p, i, tier, n)
    &&& forall|j: int| #[trigger] in_tier(p, j, tier, n) ==> (p[j]->0).at_most(p[i]->0)
    &&& forall|j: int| 0 <= j < i && #[trigger] in_tier(p, j, tier, n) ==> (p[j]->0).below(p[i]->0)
}

/// `r` is what the resolver must pick for `tier`: the top entry, or nothing where no
/// entry falls in the tier.
pub open spec fn picks_top(p: Seq<Option<SemanticVersion>>, tier: Tier, n: SemanticVersion, r: Option<usize>) -> bool {
    match r {
        Some(i) => is_top(p, i as int, tier, n),
        None => forall|j: int| !#[trigger] in_tier(p, j, tier, n),
    }
}

/// `r` is the first entry whose version equals `n`, or nothing where none does.
pub open spec fn picks_current(p: Seq<Option<SemanticVersion>>, n: SemanticVersion, r: Option<usize>) -> bool {
    match r {
        Some(i) => 0 <= i < p.len() && p[i as int] == Some(n) && forall|j: int|
            0 <= j < i ==> #[trigger] p[j] != Some(n),
        None => forall|j: int| 0 <= j < p.len() ==> #[trigger] p[j] != Some(n),
    }
}

/// Positions in a catalog of the entries that resolution picked.
#[derive(Clone, Copy, Debug, PartialEq, Eq, Structural)]
pub struct TargetIndices {
    pub current: Option<usize>,
    pub latest: Option<usize>,
    pub latest_patch: Option<usize>,
    pub latest_minor: Option<usize>,
    pub latest_major: Option<usize>,
}

/// The positions that resolution owes for a parsed catalog `p`, the position `latest`
/// that the `latest` tag names, and the normalized version `n`.
pub open spec fn selects(p: Seq<Option<SemanticVersion>>, latest: Option<usize>, n: SemanticVersion, t: TargetIndices) -> bool {
    &&& picks_current(p, n, t.current)
    &&& t.latest == latest
    &&& picks_top(p, Tier::Patch, n, t.latest_patch)
    &&& picks_top(p, Tier::Minor, n, t.latest_minor)
    &&& picks_top(p, Tier::Major, n, t.latest_major)
}

/// The first position of `tier`'s highest version in `p`, if any entry falls in it.
pub fn top_of_tier(p: &Vec<Option<SemanticVersion>>, tier: Tier, n: SemanticVersion) -> (r: Option<usize>)
    ensures
        picks_top(p@, tier, n, r),
{
    let mut best: Option<usize> = None;
    let mut i: usize = 0;
    while i < p.len()
        invariant
            i <= p@.len(),
            match best {
                Some(b) => {
                    &&& b < i
                    &&& in_tier(p@, b as int, tier, n)
                    &&& forall|j: int| 0 <= j < i && #[trigger] in_tier(p@, j, tier, n) ==> (
                    p@[j]->0).at_most(p@[b as int]->0)
                    &&& forall|j: int| 0 <= j < b && #[trigger] in_tier(p@, j, tier, n) ==> (
                    p@[j]->0).below(p@[b as int]->0)
                },
                None => forall|j: int| 0 <= j < i ==> !#[trigger] in_tier(p@, j, tier, n),
            },
        decreases p@.len() - i,
    {
        if let Some(v) = &p[i] {
            if tier.contains(v, &n) {
                let better = match best {
                    None => true,
                    Some(b) => match &p[b] {
                        Some(w) => w.is_older_than(v),
                        None => false,
                    },
                };
                if better {
                    best = Some(i);
                }
            }
        }
        i = i + 1;
    }
    best
}

/// The first position whose version equals `n`, if any.
pub fn find_current(p: &Vec<Option<SemanticVersion>>, n: SemanticVersion) -> (r: Option<usize>)
    ensures
        picks_current(p@, n, r),
{
    let mut i: usize = 0;
    while i < p.len()
        invariant
            i <= p@.len(),
            forall|j: int| 0 <= j < i ==> #[trigger] p@[j] != Some(n),
        decreases p@.len() - i,
    {
        if let Some(v) = &p[i] {
            if *v == n {
                return Some(i);
            }
        }
        i = i + 1;
    }
    None
}

/// Picks the resolution targets from a catalog whose versions have been parsed into
/// `p` (`None` for a version string that does not parse), given the position that the
/// `latest` tag names and the normalized version `n`.
pub fn select_targets(p: &Vec<Option<SemanticVersion>>, latest: Option<usize>, n: SemanticVersion) -> (r: TargetIndices)
    ensures
        selects(p@, latest, n, r),
{
    TargetIndices {
        current: find_current(p, n),
        latest,
        latest_patch: top_of_tier(p, Tier::Patch, n),
        latest_minor: top_of_tier(p, Tier::Minor, n),
        latest_major: top_of_tier(p, Tier::Major, n),
    }
}

/// The version that node-semver reads from a version string, as a `SemanticVersion`.
pub open spec fn release_of(s: Seq<char>) -> Option<SemanticVersion> {
    match semver_release(s) {
        Some((a, b, c)) => Some(SemanticVersion { major: a, minor: b, patch: c }),
        None => None,
    }
}

/// The parsed version of each entry of a catalog, in order.
pub open spec fn parsed_catalog(c: NpmPackageUnspecifiedVersion) -> Seq<Option<SemanticVersion>> {
    Seq::new(c.versions@.len(), |i: int| release_of(c.versions@[i].1.version@))
}

/// The first position whose key is `key`, if any.
pub open spec fn key_position(c: NpmPackageUnspecifiedVersion, key: Seq<char>, r: Option<usize>) -> bool {
    match r {
        Some(i) => i < c.versions@.len() && c.versions@[i as int].0@ == key && forall|j: int|
            0 <= j < i ==> #[trigger] c.versions@[j].0@ != key,
        None => forall|j: int| 0 <= j < c.versions@.len() ==> #[trigger] c.versions@[j].0@ != key,
    }
}

/// The position that the catalog's `latest` tag names, if the tag is there and names an entry.
pub open spec fn latest_position(c: NpmPackageUnspecifiedVersion, r: Option<usize>) -> bool {
    match c.dist_tags.latest {
        Some(tag) => key_position(c, tag@, r),
        None => r is None,
    }
}

/// `m` holds a copy of the entry at position `t`, or nothing where `t` is empty.
pub open spec fn carries(c: NpmPackageUnspecifiedVersion, t: Option<usize>, m: Option<VersionsObj>) -> bool {
    match t {
        Some(i) => m is Some && i < c.versions@.len() && (m->0).version@ == c.versions@[i as int].1.version@
            && (m->0).name@ == c.versions@[i as int].1.name@ && (m->0).extras@
            == c.versions@[i as int].1.extras@,
        None => m is None,
    }
}

/// `r` holds the entries at the positions `t` picked from catalog `c`.
pub open spec fn carries_all(c: NpmPackageUnspecifiedVersion, t: TargetIndices, r: PackageVersionInfo) -> bool {
    &&& carries(c, t.current, r.current)
    &&& carries(c, t.latest, r.latest)
    &&& carries(c, t.latest_patch, r.latest_patch)
    &&& carries(c, t.latest_minor, r.latest_minor)
    &&& carries(c, t.latest_major, r.latest_major)
}

/// What `resolve` owes for catalog `c` and normalized version `n`.
pub open spec fn resolves(c: NpmPackageUnspecifiedVersion, n: SemanticVersion, r: PackageVersionInfo) -> bool {
    if c.versions@.len() == 0 {
        r == PackageVersionInfo::failed(ResolveError::NoVersionsFound)
    } else {
        &&& r.error is None
        &&& exists|t: TargetIndices| #[trigger] selects(parsed_catalog(c), t.latest, n, t) && latest_position(c, t.latest)
            && carries_all(c, t, r)
    }
}

/// The position of the first entry whose key is `key`.
fn find_key(c: &NpmPackageUnspecifiedVersion, key: &String) -> (r: Option<usize>)
    ensures
        key_position(*c, key@, r),
{
    let mut i: usize = 0;
    while i < c.versions.len()
        invariant
            i <= c.versions@.len(),
            forall|j: int| 0 <= j < i ==> #[trigger] c.versions@[j].0@ != key@,
        decreases c.versions@.len() - i,
    {
        if c.versions[i].0 == *key {
            return Some(i);
        }
        i = i + 1;
    }
    None
}

fn copy_at(c: &NpmPackageUnspecifiedVersion, t: Option<usize>) -> (m: Option<VersionsObj>)
    requires
        t matches Some(i) ==> i < c.versions@.len(),
    ensures
        carries(*c, t, m),
{
    match t {
        Some(i) => Some(c.versions[i].1.duplicate()),
        None => None,
    }
}

/// Computes a dependency's resolution targets from its package's catalog and the
/// version that its specifier normalized to.
pub fn resolve(c: &NpmPackageUnspecifiedVersion, n: SemanticVersion) -> (r: PackageVersionInfo)
    ensures
        resolves(*c, n, r),
{
    if c.versions.len() == 0 {
        return PackageVersionInfo::failed(ResolveError::NoVersionsFound);
    }
    let mut p: Vec<Option<SemanticVersion>> = Vec::new();
    let mut i: usize = 0;
    while i < c.versions.len()
        invariant
            i <= c.versions@.len(),
            p@.len() == i,
            forall|j: int| 0 <= j < i ==> #[trigger] p@[j] == release_of(c.versions@[j].1.version@),
        decreases c.versions@.len() - i,
    {
        let parsed = match parse_release(c.versions[i].1.version.as_str()) {
            Some((a, b, d)) => Some(SemanticVersion { major: a, minor: b, patch: d }),
            None => None,
        };
        p.push(parsed);
        i = i + 1;
    }
    assert(p@ =~= parsed_catalog(*c));
    let latest = match &c.dist_tags.latest {
        Some(tag) => find_key(c, tag),
        None => None,
    };
    let t = select_targets(&p, latest, n);
    let r = PackageVersionInfo {
        current: copy_at(c, t.current),
        latest: copy_at(c, t.latest),
        latest_patch: copy_at(c, t.latest_patch),
        latest_minor: copy_at(c, t.latest_minor),
        latest_major: copy_at(c, t.latest_major),
        error: None,
    };
    assert(selects(parsed_catalog(*c), t.latest, n, t));
    r
}

/// Whatever each tier picks lies above the tier below it: when all three are present,
/// the latest patch comes before the latest minor, which comes before the latest major.
pub proof fn lemma_tiers_ordered(p: Seq<Option<SemanticVersion>>, latest: Option<usize>, n: SemanticVersion, t: TargetIndices)
    requires
        selects(p, latest, n, t),
    ensures
        t.latest_patch is Some && t.latest_minor is Some ==> (p[t.latest_patch->0 as int]->0).below(
            p[t.latest_minor->0 as int]->0,
        ),
        t.latest_minor is Some && t.latest_major is Some ==> (p[t.latest_minor->0 as int]->0).below(
            p[t.latest_major->0 as int]->0,
        ),
        t.latest_patch is Some && t.latest_major is Some ==> (p[t.latest_patch->0 as int]->0).below(
            p[t.latest_major->0 as int]->0,
        ),
{
    if let Some(a) = t.latest_patch {
        assert(in_tier(p, a as int, Tier::Patch, n));
    }
    if let Some(b) = t.latest_minor {
        assert(in_tier(p, b as int, Tier::Minor, n));
    }
    if let Some(c) = t.latest_major {
        assert(in_tier(p, c as int, Tier::Major, n));
    }
}

/// Two answers that both meet the contract of a tier are the same answer.
proof fn lemma_top_unique(p: Seq<Option<SemanticVersion>>, tier: Tier, n: SemanticVersion, a: Option<usize>, b: Option<usize>)
    requires
        picks_top(p, tier, n, a),
        picks_top(p, tier, n, b),
    ensures
        a == b,
{
    if let (Some(i), Some(j)) = (a, b) {
        assert(in_tier(p, i as int, tier, n));
        assert(in_tier(p, j as int, tier, n));
    } else if let Some(i) = a {
        assert(in_tier(p, i as int, tier, n));
    } else if let Some(j) = b {
        assert(in_tier(p, j as int, tier, n));
    }
}

/// The targets that the contract of `select_targets` describes are unique: selecting
/// twice from the same catalog and version gives the same positions.
pub proof fn lemma_selection_unique(p: Seq<Option<SemanticVersion>>, latest: Option<usize>, n: SemanticVersion, t1: TargetIndices, t2: TargetIndices)
    requires
        selects(p, latest, n, t1),
        selects(p, latest, n, t2),
    ensures
        t1 == t2,
{
    lemma_top_unique(p, Tier::Patch, n, t1.latest_patch, t2.latest_patch);
    lemma_top_unique(p, Tier::Minor, n, t1.latest_minor, t2.latest_minor);
    lemma_top_unique(p, Tier::Major, n, t1.latest_major, t2.latest_major);
    if let (Some(i), Some(j)) = (t1.current, t2.current) {
        if i < j {
            assert(p[i as int] == Some(n));
        } else if j < i {
            assert(p[j as int] == Some(n));
        }
    } else if let Some(i) = t1.current {
        assert(p[i as int] == Some(n));
    } else if let Some(j) = t2.current {
        assert(p[j as int] == Some(n));
    }
}

proof fn lemma_key_unique(c: NpmPackageUnspecifiedVersion, a: Option<usize>, b: Option<usize>)
    requires
        latest_position(c, a),
        latest_position(c, b),
    ensures
        a == b,
{
    if let Some(tag) = c.dist_tags.latest {
        if let (Some(i), Some(j)) = (a, b) {
            if i < j {
                assert(c.versions@[i as int].0@ == tag@);
            } else if j < i {
                assert(c.versions@[j as int].0@ == tag@);
            }
        } else if let Some(i) = a {
            assert(c.versions@[i as int].0@ == tag@);
        } else if let Some(j) = b {
            assert(c.versions@[j as int].0@ == tag@);
        }
    }
}

/// Two copies hold the same version record, as far as the resolver can tell them apart.
pub open spec fn same_entry(a: Option<VersionsObj>, b: Option<VersionsObj>) -> bool {
    match (a, b) {
        (Some(x), Some(y)) => x.version@ == y.version@ && x.name@ == y.name@ && x.extras@ == y.extras@,
        (None, None) => true,
        _ => false,
    }
}

/// Resolving twice with the same catalog and normalized version gives the same
/// targets: the same entries in each field, and the same error.
pub proof fn lemma_resolve_idempotent(c: NpmPackageUnspecifiedVersion, n: SemanticVersion, r1: PackageVersionInfo, r2: PackageVersionInfo)
    requires
        resolves(c, n, r1),
        resolves(c, n, r2),
    ensures
        r1.error == r2.error,
        same_entry(r1.current, r2.current),
        same_entry(r1.latest, r2.latest),
        same_entry(r1.latest_patch, r2.latest_patch),
        same_entry(r1.latest_minor, r2.latest_minor),
        same_entry(r1.latest_major, r2.latest_major),
{
    if c.versions@.len() > 0 {
        let t1 = choose|t: TargetIndices| #[trigger] selects(parsed_catalog(c), t.latest, n, t)
            && latest_position(c, t.latest) && carries_all(c, t, r1);
        let t2 = choose|t: TargetIndices| #[trigger] selects(parsed_catalog(c), t.latest, n, t)
            && latest_position(c, t.latest) && carries_all(c, t, r2);
        lemma_key_unique(c, t1.latest, t2.latest);
        lemma_selection_unique(parsed_catalog(c), t1.latest, n, t1, t2);
    }
}

} // verus!
