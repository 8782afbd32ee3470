use vstd::prelude::*;
use crate::error::ResolveError;
use crate::npm::NpmPackageUnspecifiedVersion;
use crate::order::{arranged, sort_by_name};
use crate::resolver::{resolve, resolves};
use crate::semver::{normalize, normalized, SemanticVersion};
use crate::types::{DepsWithMetadata, PackageJsonParsedObject, PackageVersionInfo};
use vstd::utf8::encode_utf8;

verus! {

/// The version that a dependency's specifier normalizes to, if any.
pub open spec fn dep_version(d: PackageJsonParsedObject) -> Option<SemanticVersion> {
    normalized(encode_utf8(d.version@))
}

/// `r` is what the targets of a dependency that normalized to `v` can be once its
/// fetch is over: resolved from some catalog, or an error alone.
pub open spec fn settled(v: SemanticVersion, r: PackageVersionInfo) -> bool {
    ||| (r.error is Some && r == PackageVersionInfo::spec_failed(r.error->0))
    ||| exists|c: NpmPackageUnspecifiedVersion| #[trigger] resolves(c, v, r)
}

/// The number of slots before `k` whose targets are still missing.
pub open spec fn missing_before(r: Seq<Option<PackageVersionInfo>>, k: int) -> nat
    decreases k,
{
    if k <= 0 {
        0
    } else {
        missing_before(r, k - 1) + if r[k - 1] is None {
            1nat
        } else {
            0nat
        }
    }
}

proof fn lemma_missing_fill(r: Seq<Option<PackageVersionInfo>>, j: int, x: PackageVersionInfo, k: int)
    requires
        0 <= j < k <= r.len(),
        r[j] is None,
    ensures
        missing_before(r.update(j, Some(x)), k) + 1 == missing_before(r, k),
    decreases k,
{
    if k - 1 > j {
        lemma_missing_fill(r, j, x, k - 1);
    } else {
        lemma_missing_same(r, r.update(j, Some(x)), j);
    }
}

proof fn lemma_missing_same(r: Seq<Option<PackageVersionInfo>>, q: Seq<Option<PackageVersionInfo>>, k: int)
    requires
        0 <= k <= r.len(),
        k <= q.len(),
        forall|j: int| 0 <= j < k ==> #[trigger] r[j] == q[j],
    ensures
        missing_before(r, k) == missing_before(q, k),
    decreases k,
{
    if k > 0 {
        lemma_missing_same(r, q, k - 1);
    }
}

/// Computes the targets of a dependency whose specifier normalized to `v`, from the
/// outcome of fetching its package's catalog.
pub fn targets_for(v: SemanticVersion, outcome: Result<NpmPackageUnspecifiedVersion, ResolveError>) -> (r: PackageVersionInfo)
    ensures
        match outcome {
            Ok(c) => resolves(c, v, r),
            Err(e) => r == PackageVersionInfo::spec_failed(e),
        },
{
    match outcome {
        Ok(c) => resolve(&c, v),
        Err(e) => PackageVersionInfo::failed(e),
    }
}

/// The resolution of a manifest's dependencies, driven one fetch at a time.
///
/// Slots hold the dependencies sorted by name, the production ones first. A slot whose
/// specifier does not normalize is settled at once with `BadVersionSpecifier` and is
/// never fetched. The others are handed out by `next_fetch`, in slot order, never more
/// than `bound` at a time, and settled by `complete` in whatever order their fetches end.
pub struct Batch {
    pub entries: Vec<PackageJsonParsedObject>,
    pub n_deps: usize,
    pub normalized: Vec<Option<SemanticVersion>>,
    pub results: Vec<Option<PackageVersionInfo>>,
    pub cursor: usize,
    pub in_flight: usize,
    pub bound: usize,
}

impl Batch {
    /// The batch's invariant: the slots line up, the fetches in flight are exactly the
    /// unsettled slots before the cursor and stay within the bound, and every settled
    /// slot holds what its specifier and its fetch allow.
    pub open spec fn wf(&self) -> bool {
        &&& self.normalized@.len() == self.entries@.len()
        &&& self.results@.len() == self.entries@.len()
        &&& self.n_deps <= self.entries@.len()
        &&& self.cursor <= self.entries@.len()
        &&& 0 < self.bound
        &&& self.in_flight <= self.bound
        &&& self.in_flight == missing_before(self.results@, self.cursor as int)
        &&& forall|j: int| 0 <= j < self.entries@.len() ==> #[trigger] self.normalized@[j] == dep_version(self.entries@[j])
        &&& forall|j: int| 0 <= j < self.entries@.len() && #[trigger] self.normalized@[j] is None
            ==> self.results@[j] == Some(PackageVersionInfo::spec_failed(ResolveError::BadVersionSpecifier))
        &&& forall|j: int| self.cursor <= j < self.entries@.len() && #[trigger] self.normalized@[j] is Some
            ==> self.results@[j] is None
        &&& forall|j: int| 0 <= j < self.entries@.len() && #[trigger] self.results@[j] is Some
            && self.normalized@[j] is Some ==> settled(self.normalized@[j]->0, self.results@[j]->0)
    }

    /// A slot at or after the cursor still waits for its fetch.
    pub open spec fn has_waiting(&self) -> bool {
        exists|j: int| self.cursor <= j < self.results@.len() && #[trigger] self.results@[j] is None
    }

    /// Every slot is settled.
    pub open spec fn spec_finished(&self) -> bool {
        forall|j: int| 0 <= j < self.results@.len() ==> #[trigger] self.results@[j] is Some
    }

    /// Starts a batch over `deps` and `dev_deps`, with at most `bound` fetches in flight.
    pub fn new(deps: &Vec<PackageJsonParsedObject>, dev_deps: &Vec<PackageJsonParsedObject>, bound: usize) -> (r: Batch)
        requires
            bound > 0,
            deps@.len() + dev_deps@.len() <= usize::MAX,
        ensures
            r.wf(),
            r.bound == bound,
            r.in_flight == 0,
            r.cursor == 0,
            r.n_deps == deps@.len(),
            r.entries@.len() == deps@.len() + dev_deps@.len(),
            arranged(deps@, r.entries@.subrange(0, deps@.len() as int)),
            arranged(dev_deps@, r.entries@.subrange(deps@.len() as int, r.entries@.len() as int)),
    {
        let mut entries = sort_by_name(deps);
        let mut second = sort_by_name(dev_deps);
        let ghost a = entries@;
        let ghost b = second@;
        entries.append(&mut second);
        proof {
            assert(entries@.subrange(0, deps@.len() as int) =~= a);
            assert(entries@.subrange(deps@.len() as int, entries@.len() as int) =~= b);
        }
        let mut normalized: Vec<Option<SemanticVersion>> = Vec::new();
        let mut results: Vec<Option<PackageVersionInfo>> = Vec::new();
        let mut j: usize = 0;
        while j < entries.len()
            invariant
                j <= entries@.len(),
                normalized@.len() == j,
                results@.len() == j,
                forall|m: int| 0 <= m < j ==> #[trigger] normalized@[m] == dep_version(entries@[m]),
                forall|m: int| 0 <= m < j && #[trigger] normalized@[m] is None ==> results@[m] == Some(
                    PackageVersionInfo::spec_failed(ResolveError::BadVersionSpecifier),
                ),
                forall|m: int| 0 <= m < j && #[trigger] normalized@[m] is Some ==> results@[m] is None,
            decreases entries@.len() - j,
        {
            match normalize(entries[j].version.as_str()) {
                Ok(v) => {
                    normalized.push(Some(v));
                    results.push(None);
                },
                Err(_) => {
                    normalized.push(None);
                    results.push(Some(PackageVersionInfo::failed(ResolveError::BadVersionSpecifier)));
                },
            }
            j = j + 1;
        }
        Batch { entries, n_deps: deps.len(), normalized, results, cursor: 0, in_flight: 0, bound }
    }

    /// The next slot to fetch, if one waits and fewer than `bound` fetches are in flight.
    /// The slot is then in flight until `complete` settles it.
    pub fn next_fetch(&mut self) -> (r: Option<usize>)
        requires
            old(self).wf(),
        ensures
            final(self).wf(),
            final(self).entries == old(self).entries,
            final(self).normalized == old(self).normalized,
            final(self).results == old(self).results,
            final(self).n_deps == old(self).n_deps,
            final(self).bound == old(self).bound,
            match r {
                Some(j) => {
                    &&& old(self).in_flight < old(self).bound
                    &&& final(self).in_flight == old(self).in_flight + 1
                    &&& old(self).cursor <= j < final(self).entries@.len()
                    &&& final(self).cursor == j + 1
                    &&& final(self).results@[j as int] is None
                    &&& forall|m: int| old(self).cursor <= m < j ==> #[trigger] final(self).results@[m] is Some
                },
                None => {
                    &&& final(self).in_flight == old(self).in_flight
                    &&& (old(self).in_flight == old(self).bound || !old(self).has_waiting())
                    &&& !final(self).has_waiting()
                        || final(self).in_flight == final(self).bound
                },
            },
    {
        if self.in_flight >= self.bound {
            return None;
        }
        let ghost start = self.cursor;
        while self.cursor < self.results.len() && self.results[self.cursor].is_some()
            invariant
                self.wf(),
                self.entries == old(self).entries,
                self.normalized == old(self).normalized,
                self.results == old(self).results,
                self.n_deps == old(self).n_deps,
                self.bound == old(self).bound,
                self.in_flight == old(self).in_flight,
                self.in_flight < self.bound,
                start == old(self).cursor,
                start <= self.cursor,
                forall|m: int| start <= m < self.cursor ==> #[trigger] self.results@[m] is Some,
            decreases self.results@.len() - self.cursor,
        {
            self.cursor = self.cursor + 1;
        }
        if self.cursor == self.results.len() {
            return None;
        }
        let slot = self.cursor;
        self.cursor = self.cursor + 1;
        self.in_flight = self.in_flight + 1;
        Some(slot)
    }

    /// Settles slot `slot`, which is in flight, with the outcome of its fetch.
    pub fn complete(&mut self, slot: usize, outcome: Result<NpmPackageUnspecifiedVersion, ResolveError>)
        requires
            old(self).wf(),
            slot < old(self).cursor,
            old(self).results@[slot as int] is None,
        ensures
            final(self).wf(),
            final(self).entries == old(self).entries,
            final(self).normalized == old(self).normalized,
            final(self).n_deps == old(self).n_deps,
            final(self).bound == old(self).bound,
            final(self).cursor == old(self).cursor,
            final(self).in_flight + 1 == old(self).in_flight,
            final(self).results@.len() == old(self).results@.len(),
            forall|j: int| 0 <= j < old(self).results@.len() && j != slot ==> #[trigger] final(self).results@[j] == old(self).results@[j],
            final(self).results@[slot as int] matches Some(t) && match outcome {
                Ok(c) => resolves(c, old(self).normalized@[slot as int]->0, t),
                Err(e) => t == PackageVersionInfo::spec_failed(e),
            },
    {
        let v = self.normalized[slot].unwrap();
        let ghost o = outcome;
        let t = targets_for(v, outcome);
        proof {
            lemma_missing_fill(self.results@, slot as int, t, self.cursor as int);
            if let Ok(c) = o {
                assert(resolves(c, v, t));
            }
        }
        self.results.set(slot, Some(t));
        self.in_flight = self.in_flight - 1;
    }

    /// Whether every slot is settled.
    pub fn is_finished(&self) -> (r: bool)
        ensures
            r == self.spec_finished(),
    {
        let mut j: usize = 0;
        while j < self.results.len()
            invariant
                j <= self.results@.len(),
                forall|m: int| 0 <= m < j ==> #[trigger] self.results@[m] is Some,
            decreases self.results@.len() - j,
        {
            if self.results[j].is_none() {
                return false;
            }
            j = j + 1;
        }
        true
    }

    /// The report of a finished batch: each dependency beside its targets, in slot order.
    pub fn into_report(self) -> (r: DepsWithMetadata)
        requires
            self.wf(),
            self.spec_finished(),
        ensures
            r.deps@.len() == self.n_deps,
            r.dev_deps@.len() == self.entries@.len() - self.n_deps,
            forall|k: int| 0 <= k < self.n_deps ==> #[trigger] r.deps@[k] == (self.entries@[k], self.results@[k]->0),
            forall|k: int| 0 <= k < r.dev_deps@.len() ==> #[trigger] r.dev_deps@[k] == (
                self.entries@[self.n_deps + k],
                self.results@[self.n_deps + k]->0,
            ),
    {
        let ghost e0 = self.entries@;
        let ghost r0 = self.results@;
        let n_deps = self.n_deps;
        let mut entries = self.entries;
        let mut results = self.results;
        let mut deps: Vec<(PackageJsonParsedObject, PackageVersionInfo)> = Vec::new();
        let mut dev_deps: Vec<(PackageJsonParsedObject, PackageVersionInfo)> = Vec::new();
        while entries.len() > 0
            invariant
                n_deps <= e0.len() == r0.len(),
                entries@.len() == results@.len(),
                entries@.len() <= e0.len(),
                entries@ == e0.subrange(0, entries@.len() as int),
                results@ == r0.subrange(0, results@.len() as int),
                forall|j: int| 0 <= j < r0.len() ==> #[trigger] r0[j] is Some,
                entries@.len() >= n_deps ==> deps@.len() == 0 && dev_deps@.len() == e0.len() - entries@.len(),
                entries@.len() < n_deps ==> deps@.len() == n_deps - entries@.len() && dev_deps@.len() == e0.len() - n_deps,
                forall|k: int| 0 <= k < dev_deps@.len() ==> #[trigger] dev_deps@[k] == (
                    e0[e0.len() - dev_deps@.len() + k],
                    r0[e0.len() - dev_deps@.len() + k]->0,
                ),
                forall|k: int| 0 <= k < deps@.len() ==> #[trigger] deps@[k] == (
                    e0[n_deps - deps@.len() + k],
                    r0[n_deps - deps@.len() + k]->0,
                ),
            decreases entries@.len(),
        {
            let ghost len = entries@.len();
            let e = entries.pop().unwrap();
            let t = results.pop().unwrap().unwrap();
            proof {
                assert(e == e0[len - 1]);
                assert(entries@ =~= e0.subrange(0, len - 1));
                assert(results@ =~= r0.subrange(0, len - 1));
            }
            if entries.len() >= n_deps {
                let ghost before = dev_deps@;
                dev_deps.insert(0, (e, t));
                proof {
                    assert forall|k: int| 0 <= k < dev_deps@.len() implies #[trigger] dev_deps@[k] == (
                        e0[e0.len() - dev_deps@.len() + k],
                        r0[e0.len() - dev_deps@.len() + k]->0,
                    ) by {
                        if k > 0 {
                            assert(dev_deps@[k] == before[k - 1]);
                        }
                    }
                }
            } else {
                let ghost before = deps@;
                deps.insert(0, (e, t));
                proof {
                    assert forall|k: int| 0 <= k < deps@.len() implies #[trigger] deps@[k] == (
                        e0[n_deps - deps@.len() + k],
                        r0[n_deps - deps@.len() + k]->0,
                    ) by {
                        if k > 0 {
                            assert(deps@[k] == before[k - 1]);
                        }
                    }
                }
            }
        }
        DepsWithMetadata { deps, dev_deps }
    }
}

} // verus!
