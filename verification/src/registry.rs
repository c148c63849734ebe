//! The package registry: per-package install history and a memoization cache
//! for resolved semantic versions.
//!
//! Both mappings are kept as vectors of keyed entries looked up by first
//! match; `crate::alist` supplies the mapping semantics.

use vstd::prelude::*;

use crate::alist::{
    alist_get, lemma_alist_get_first, lemma_alist_get_none, lemma_alist_push, lemma_alist_update,
};
use crate::text::str_eq;

verus! {

/// One historical install, pin, or rollback event.
pub struct PackageInfo {
    /// Package identifier.
    pub name: String,
    /// The version token the user supplied, kept verbatim.
    pub version: String,
    /// The concrete fetchable reference resolved for this event.
    pub reference: String,
    /// Timestamp of the event, assigned at creation and never mutated.
    pub installed_at: String,
    /// Optional lock-file content snapshot.
    pub lock: Option<String>,
}

/// Mathematical value of a `PackageInfo`.
pub ghost struct PackageInfoV {
    pub name: Seq<char>,
    pub version: Seq<char>,
    pub reference: Seq<char>,
    pub installed_at: Seq<char>,
    pub lock: Option<Seq<char>>,
}

impl View for PackageInfo {
    type V = PackageInfoV;

    open spec fn view(&self) -> PackageInfoV {
        PackageInfoV {
            name: self.name@,
            version: self.version@,
            reference: self.reference@,
            installed_at: self.installed_at@,
            lock: match self.lock {
                Some(l) => Some(l@),
                None => None,
            },
        }
    }
}

/// The history events recorded for one package, in chronological order.
pub struct HistoryEntry {
    pub name: String,
    pub events: Vec<PackageInfo>,
}

/// One cached resolution: a version token and the reference it resolved to.
pub struct VersionPin {
    pub version: String,
    pub reference: String,
}

/// The cached resolutions for one package.
pub struct CacheEntry {
    pub name: String,
    pub pins: Vec<VersionPin>,
}

/// Mathematical value of the whole registry: two association-list views.
pub ghost struct RegistryV {
    pub history: Seq<(Seq<char>, Seq<PackageInfoV>)>,
    pub cache: Seq<(Seq<char>, Seq<(Seq<char>, Seq<char>)>)>,
}

/// Process-wide persisted state: install history plus resolution cache.
pub struct PackageRegistry {
    pub history: Vec<HistoryEntry>,
    pub resolved_cache: Vec<CacheEntry>,
}

/// The events of one history entry, as mathematical values.
pub open spec fn events_view(v: Seq<PackageInfo>) -> Seq<PackageInfoV> {
    v.map_values(|p: PackageInfo| p@)
}

/// The pins of one cache entry, as key-value pairs.
pub open spec fn pins_view(v: Seq<VersionPin>) -> Seq<(Seq<char>, Seq<char>)> {
    v.map_values(|p: VersionPin| (p.version@, p.reference@))
}

/// The history vector, as key-value pairs of mathematical values.
pub open spec fn hist_view(v: Seq<HistoryEntry>) -> Seq<(Seq<char>, Seq<PackageInfoV>)> {
    v.map_values(|e: HistoryEntry| (e.name@, events_view(e.events@)))
}

/// The cache vector, as key-value pairs of mathematical values.
pub open spec fn cache_view(v: Seq<CacheEntry>) -> Seq<(Seq<char>, Seq<(Seq<char>, Seq<char>)>)> {
    v.map_values(|e: CacheEntry| (e.name@, pins_view(e.pins@)))
}

impl View for PackageRegistry {
    type V = RegistryV;

    open spec fn view(&self) -> RegistryV {
        RegistryV { history: hist_view(self.history@), cache: cache_view(self.resolved_cache@) }
    }
}

/// The recorded history of `name`: the event sequence, oldest first.
pub open spec fn spec_history_of(r: RegistryV, name: Seq<char>) -> Option<Seq<PackageInfoV>> {
    alist_get(r.history, name)
}

/// The cached reference for `(name, version)`, if any.
pub open spec fn spec_cache_get(r: RegistryV, name: Seq<char>, version: Seq<char>) -> Option<
    Seq<char>,
> {
    match alist_get(r.cache, name) {
        None => None,
        Some(pins) => alist_get(pins, version),
    }
}

/// Relies on `chrono::Utc::now` and `chrono::DateTime::to_rfc3339`: the
/// current UTC time rendered as an RFC 3339 timestamp, which is never empty.
#[verifier::external_body]
fn now_rfc3339() -> (r: String)
    ensures
        r@.len() > 0,
{
    chrono::Utc::now().to_rfc3339()
}

impl PackageInfo {
    /// A fresh event for the given package, version token and resolved
    /// reference, stamped with the current time and without a lock snapshot.
    pub fn fresh(name: &str, version: &str, reference: &str) -> (r: PackageInfo)
        ensures
            r@.name == name@,
            r@.version == version@,
            r@.reference == reference@,
            r@.installed_at.len() > 0,
            r@.lock is None,
    {
        PackageInfo {
            name: name.to_owned(),
            version: version.to_owned(),
            reference: reference.to_owned(),
            installed_at: now_rfc3339(),
            lock: None,
        }
    }
}

impl PackageRegistry {
    /// An empty registry: no history, no cached resolutions.
    pub fn new() -> (r: Self)
        ensures
            r@.history.len() == 0,
            r@.cache.len() == 0,
    {
        PackageRegistry { history: Vec::new(), resolved_cache: Vec::new() }
    }

    /// Appends `package` to the history of `package.name`, creating the
    /// sequence if absent. Every other package's history, and the resolution
    /// cache, are left untouched. Append-only: nothing is rewritten.
    pub fn add_package(&mut self, package: PackageInfo)
        ensures
            final(self)@.cache == old(self)@.cache,
            spec_history_of(final(self)@, package@.name) == Some(
                match spec_history_of(old(self)@, package@.name) {
                    None => seq![package@],
                    Some(s) => s.push(package@),
                },
            ),
            forall|n: Seq<char>|
                n != package@.name ==> spec_history_of(final(self)@, n) == spec_history_of(
                    old(self)@,
                    n,
                ),
    {
        let ghost h0 = self@.history;
        let n = self.history.len();
        let mut i: usize = 0;
        while i < n
            invariant
                n == self.history@.len(),
                i <= n,
                *self == *old(self),
                h0 == self@.history,
                forall|j: int| 0 <= j < i ==> h0[j].0 != package@.name,
            decreases n - i,
        {
            if str_eq(self.history[i].name.as_str(), package.name.as_str()) {
                let ghost events0 = h0[i as int].1;
                let mut entry = self.history.remove(i);
                entry.events.push(package);
                self.history.insert(i, entry);
                proof {
                    let h1 = self@.history;
                    assert(h1.len() == h0.len());
                    assert forall|j: int| 0 <= j < h0.len() && j != i implies h1[j] == h0[j] by {}
                    assert(h1[i as int].0 == package@.name);
                    assert(h1[i as int].1 =~= events0.push(package@));
                    lemma_alist_get_first(h0, package@.name, i as int);
                    lemma_alist_update(h0, h1, package@.name, i as int);
                }
                return ;
            }
            i = i + 1;
        }
        let name = package.name.clone();
        let mut events: Vec<PackageInfo> = Vec::new();
        events.push(package);
        let ghost eview = events_view(events@);
        self.history.push(HistoryEntry { name, events });
        proof {
            let h1 = self@.history;
            lemma_alist_get_none(h0, package@.name);
            assert(eview =~= seq![package@]);
            assert(h1 =~= h0.push((package@.name, eview)));
            lemma_alist_push(h0, package@.name, eview);
        }
    }

    /// The recorded history of `package`, oldest event first, if any.
    pub fn get_package_history(&self, package: &str) -> (r: Option<&Vec<PackageInfo>>)
        ensures
            match r {
                Some(v) => spec_history_of(self@, package@) == Some(events_view(v@)),
                None => spec_history_of(self@, package@) is None,
            },
    {
        let n = self.history.len();
        let mut i: usize = 0;
        while i < n
            invariant
                n == self.history@.len(),
                i <= n,
                forall|j: int| 0 <= j < i ==> self@.history[j].0 != package@,
            decreases n - i,
        {
            if str_eq(self.history[i].name.as_str(), package) {
                proof {
                    lemma_alist_get_first(self@.history, package@, i as int);
                }
                return Some(&self.history[i].events);
            }
            i = i + 1;
        }
        proof {
            lemma_alist_get_none(self@.history, package@);
        }
        None
    }

    /// Binds `(package, version)` to `flake_url` in the resolution cache,
    /// replacing any previous binding of that pair and leaving every other
    /// pair, and the whole history, untouched.
    pub fn cache_version(&mut self, package: &str, version: &str, flake_url: &str)
        ensures
            final(self)@.history == old(self)@.history,
            spec_cache_get(final(self)@, package@, version@) == Some(flake_url@),
            forall|p2: Seq<char>, v2: Seq<char>|
                !(p2 == package@ && v2 == version@) ==> spec_cache_get(final(self)@, p2, v2)
                    == spec_cache_get(old(self)@, p2, v2),
    {
        let ghost c0 = self@.cache;
        let n = self.resolved_cache.len();
        let mut i: usize = 0;
        while i < n
            invariant
                n == self.resolved_cache@.len(),
                i <= n,
                *self == *old(self),
                c0 == self@.cache,
                forall|j: int| 0 <= j < i ==> c0[j].0 != package@,
            decreases n - i,
        {
            if str_eq(self.resolved_cache[i].name.as_str(), package) {
                let ghost pins0 = c0[i as int].1;
                let mut entry = self.resolved_cache.remove(i);
                Self::put_pin(&mut entry.pins, version, flake_url);
                self.resolved_cache.insert(i, entry);
                proof {
                    let c1 = self@.cache;
                    let pins1 = c1[i as int].1;
                    assert(c1.len() == c0.len());
                    assert forall|j: int| 0 <= j < c0.len() && j != i implies c1[j] == c0[j] by {}
                    assert(c1[i as int].0 == package@);
                    lemma_alist_get_first(c0, package@, i as int);
                    lemma_alist_update(c0, c1, package@, i as int);
                    assert(alist_get(pins1, version@) == Some(flake_url@));
                }
                return ;
            }
            i = i + 1;
        }
        let mut pins: Vec<VersionPin> = Vec::new();
        pins.push(VersionPin { version: version.to_owned(), reference: flake_url.to_owned() });
        let ghost pview = pins_view(pins@);
        self.resolved_cache.push(CacheEntry { name: package.to_owned(), pins });
        proof {
            let c1 = self@.cache;
            lemma_alist_get_none(c0, package@);
            assert(pview =~= seq![(version@, flake_url@)]);
            assert(c1 =~= c0.push((package@, pview)));
            lemma_alist_push(c0, package@, pview);
            assert(alist_get(pview, version@) == Some(flake_url@));
            assert forall|v2: Seq<char>| v2 != version@ implies alist_get(pview, v2)
                == None::<Seq<char>> by {
                assert(pview.drop_first() =~= Seq::<(Seq<char>, Seq<char>)>::empty());
                assert(alist_get(pview.drop_first(), v2) == None::<Seq<char>>);
            }
        }
    }

    /// Binds `version` to `flake_url` among `pins`, replacing the first
    /// existing pin of that version or appending a new one.
    fn put_pin(pins: &mut Vec<VersionPin>, version: &str, flake_url: &str)
        ensures
            alist_get(pins_view(final(pins)@), version@) == Some(flake_url@),
            forall|v2: Seq<char>|
                v2 != version@ ==> alist_get(pins_view(final(pins)@), v2) == alist_get(
                    pins_view(old(pins)@),
                    v2,
                ),
    {
        let ghost p0 = pins_view(pins@);
        let n = pins.len();
        let mut i: usize = 0;
        while i < n
            invariant
                n == pins@.len(),
                *pins == *old(pins),
                p0 == pins_view(pins@),
                i <= n,
                forall|j: int| 0 <= j < i ==> p0[j].0 != version@,
            decreases n - i,
        {
            if str_eq(pins[i].version.as_str(), version) {
                let _ = pins.remove(i);
                pins.insert(
                    i,
                    VersionPin { version: version.to_owned(), reference: flake_url.to_owned() },
                );
                proof {
                    let p1 = pins_view(pins@);
                    assert(p1.len() == p0.len());
                    assert forall|j: int| 0 <= j < p0.len() && j != i implies p1[j] == p0[j] by {}
                    assert(p1[i as int] == (version@, flake_url@));
                    lemma_alist_get_first(p0, version@, i as int);
                    lemma_alist_update(p0, p1, version@, i as int);
                }
                return ;
            }
            i = i + 1;
        }
        pins.push(VersionPin { version: version.to_owned(), reference: flake_url.to_owned() });
        proof {
            let p1 = pins_view(pins@);
            lemma_alist_get_none(p0, version@);
            assert(p1 =~= p0.push((version@, flake_url@)));
            lemma_alist_push(p0, version@, flake_url@);
        }
    }

    /// The cached reference for `(package, version)`, if one was ever stored.
    pub fn get_cached_version(&self, package: &str, version: &str) -> (r: Option<&String>)
        ensures
            match r {
                Some(u) => spec_cache_get(self@, package@, version@) == Some(u@),
                None => spec_cache_get(self@, package@, version@) is None,
            },
    {
        let n = self.resolved_cache.len();
        let mut i: usize = 0;
        while i < n
            invariant
                n == self.resolved_cache@.len(),
                i <= n,
                forall|j: int| 0 <= j < i ==> self@.cache[j].0 != package@,
            decreases n - i,
        {
            if str_eq(self.resolved_cache[i].name.as_str(), package) {
                proof {
                    lemma_alist_get_first(self@.cache, package@, i as int);
                }
                let entry = &self.resolved_cache[i];
                let ghost pins = self@.cache[i as int].1;
                let m = entry.pins.len();
                let mut k: usize = 0;
                while k < m
                    invariant
                        m == entry.pins@.len(),
                        k <= m,
                        pins == pins_view(entry.pins@),
                        alist_get(self@.cache, package@) == Some(pins),
                        forall|j: int| 0 <= j < k ==> pins[j].0 != version@,
                    decreases m - k,
                {
                    if str_eq(entry.pins[k].version.as_str(), version) {
                        proof {
                            lemma_alist_get_first(pins, version@, k as int);
                            assert(pins[k as int].1 == entry.pins@[k as int].reference@);
                            assert(alist_get(self@.cache, package@) == Some(pins));
                            assert(spec_cache_get(self@, package@, version@) == Some(
                                entry.pins@[k as int].reference@,
                            ));
                        }
                        return Some(&entry.pins[k].reference);
                    }
                    k = k + 1;
                }
                proof {
                    lemma_alist_get_none(pins, version@);
                }
                return None;
            }
            i = i + 1;
        }
        proof {
            lemma_alist_get_none(self@.cache, package@);
        }
        None
    }
}

} // verus!
