//! The time-boxed enrichment cache.
//!
//! Enrichment results are memoized per project identity key and considered
//! valid for a fixed seven-day window. Stale entries are never deleted: a
//! read simply bypasses them, and the next successful write overwrites them
//! (lazy expiry).

use vstd::prelude::*;

use crate::project::{spec_project_eq, UpstreamProject};
use crate::strutil::str_eq_str;

verus! {

/// How long a cache entry stays valid, in seconds: seven days.
pub const CACHE_TTL_SECONDS: i64 = 604800;

/// One cached enrichment result.
#[derive(Debug)]
pub struct CacheEntry {
    /// The project identity key (the pre-normalization repository URL,
    /// falling back to the homepage) under which the result was stored.
    pub key: String,
    /// The cached enrichment snapshot.
    pub project: UpstreamProject,
    /// When the entry was written, as seconds since the epoch.
    pub cached_at: i64,
}

/// Whether an entry written at `cached_at` is still valid at `now`: no
/// more than the TTL has passed. An entry dated in the future counts as
/// valid, matching a signed-difference check.
pub open spec fn spec_fresh(cached_at: i64, now: i64) -> bool {
    now - cached_at <= CACHE_TTL_SECONDS
}

/// Exec mirror of [`spec_fresh`]: the freshness decision of the cache.
pub fn is_fresh(cached_at: i64, now: i64) -> (r: bool)
    requires
        0 <= cached_at,
        0 <= now,
    ensures
        r == spec_fresh(cached_at, now),
{
    now - cached_at <= CACHE_TTL_SECONDS
}

/// Index of the entry with `key` in `entries`, or -1 if absent.
pub open spec fn spec_cache_index(entries: Seq<CacheEntry>, key: Seq<char>) -> int
    decreases entries.len(),
{
    if entries.len() == 0 {
        -1
    } else if entries[0].key@ == key {
        0
    } else {
        let r = spec_cache_index(entries.drop_first(), key);
        if r == -1 {
            -1
        } else {
            r + 1
        }
    }
}

/// `spec_cache_index` is either -1 with no matching entry, or the first
/// matching index.
pub proof fn lemma_cache_index(entries: Seq<CacheEntry>, key: Seq<char>)
    ensures
        spec_cache_index(entries, key) == -1 ==> forall|k: int|
            0 <= k < entries.len() ==> (#[trigger] entries[k]).key@ != key,
        spec_cache_index(entries, key) != -1 ==> {
            let i = spec_cache_index(entries, key);
            &&& 0 <= i < entries.len()
            &&& entries[i].key@ == key
            &&& forall|k: int| 0 <= k < i ==> (#[trigger] entries[k]).key@ != key
        },
    decreases entries.len(),
{
    if entries.len() > 0 && entries[0].key@ != key {
        lemma_cache_index(entries.drop_first(), key);
        let r = spec_cache_index(entries.drop_first(), key);
        if r == -1 {
            assert forall|k: int| 0 <= k < entries.len() implies (#[trigger] entries[k]).key@
                != key by {
                if k > 0 {
                    assert(entries.drop_first()[k - 1] == entries[k]);
                }
            }
        } else {
            assert(entries[r + 1] == entries.drop_first()[r]);
            assert forall|k: int| 0 <= k < r + 1 implies (#[trigger] entries[k]).key@ != key by {
                if k > 0 {
                    assert(entries.drop_first()[k - 1] == entries[k]);
                }
            }
        }
    }
}

/// The entry list after an upsert of (`key`, `project`) at `now`: an entry
/// with the key is overwritten in place; otherwise a new entry is appended.
pub open spec fn spec_put(
    entries: Seq<CacheEntry>,
    key: String,
    project: UpstreamProject,
    now: i64,
) -> Seq<CacheEntry> {
    let e = CacheEntry { key, project, cached_at: now };
    let i = spec_cache_index(entries, key@);
    if i >= 0 {
        entries.update(i, e)
    } else {
        entries.push(e)
    }
}

/// The result of a cache read at `now`: the project stored under `key`,
/// unless no entry exists or the entry is stale.
pub open spec fn spec_get(entries: Seq<CacheEntry>, key: Seq<char>, now: i64) -> Option<
    UpstreamProject,
> {
    let i = spec_cache_index(entries, key);
    if i >= 0 && spec_fresh(entries[i].cached_at, now) {
        Some(entries[i].project)
    } else {
        None
    }
}

/// An in-memory TTL cache of enrichment results, keyed by project identity.
#[derive(Debug)]
pub struct EnrichmentCache {
    /// The stored entries; keys are pairwise distinct.
    pub entries: Vec<CacheEntry>,
}

impl EnrichmentCache {
    /// Key distinctness and timestamp sanity, preserved by every method.
    pub open spec fn wf(self) -> bool {
        &&& forall|i: int, j: int|
            0 <= i < j < self.entries@.len() ==> (#[trigger] self.entries@[i]).key@ != (
            #[trigger] self.entries@[j]).key@
        &&& forall|i: int| 0 <= i < self.entries@.len() ==> 0 <= (#[trigger] self.entries@[i]).cached_at
    }

    /// An empty cache.
    pub fn new() -> (r: EnrichmentCache)
        ensures
            r.wf(),
            r.entries@ =~= Seq::<CacheEntry>::empty(),
    {
        EnrichmentCache { entries: Vec::new() }
    }

    /// Index of the entry with `key`, if any.
    fn find_index(&self, key: &str) -> (r: Option<usize>)
        ensures
            r is None <==> spec_cache_index(self.entries@, key@) == -1,
            r is Some ==> r->0 == spec_cache_index(self.entries@, key@),
    {
        let mut i: usize = 0;
        while i < self.entries.len()
            invariant
                i <= self.entries@.len(),
                forall|k: int| 0 <= k < i ==> (#[trigger] self.entries@[k]).key@ != key@,
            decreases self.entries@.len() - i,
        {
            if str_eq_str(self.entries[i].key.as_str(), key) {
                proof {
                    lemma_cache_index(self.entries@, key@);
                }
                return Some(i);
            }
            i += 1;
        }
        proof {
            lemma_cache_index(self.entries@, key@);
        }
        None
    }

    /// Unconditional upsert: store `project` under `key`, refreshing the
    /// entry's timestamp to `now` whether or not one already existed.
    pub fn put(&mut self, key: String, project: UpstreamProject, now: i64)
        requires
            old(self).wf(),
            0 <= now,
        ensures
            final(self).wf(),
            final(self).entries@ == spec_put(old(self).entries@, key, project, now),
    {
        proof {
            lemma_cache_index(self.entries@, key@);
        }
        let idx = self.find_index(key.as_str());
        let entry = CacheEntry { key, project, cached_at: now };
        match idx {
            Some(i) => {
                self.entries.set(i, entry);
                proof {
                    assert forall|a: int, b: int| 0 <= a < b < self.entries@.len() implies (
                    #[trigger] self.entries@[a]).key@ != (#[trigger] self.entries@[b]).key@ by {
                        assert(old(self).entries@[a].key@ != old(self).entries@[b].key@);
                    }
                }
            },
            None => {
                self.entries.push(entry);
                proof {
                    assert forall|a: int, b: int| 0 <= a < b < self.entries@.len() implies (
                    #[trigger] self.entries@[a]).key@ != (#[trigger] self.entries@[b]).key@ by {
                        if b < self.entries@.len() - 1 {
                            assert(old(self).entries@[a].key@ != old(self).entries@[b].key@);
                        } else {
                            assert(old(self).entries@[a].key@ != entry.key@);
                        }
                    }
                }
            },
        }
    }

    /// Read the entry stored under `key`, treating an entry older than the
    /// TTL as absent (without deleting it).
    pub fn get(&self, key: &str, now: i64) -> (r: Option<UpstreamProject>)
        requires
            self.wf(),
            0 <= now,
        ensures
            r is Some <==> spec_get(self.entries@, key@, now) is Some,
            r is Some ==> spec_project_eq(spec_get(self.entries@, key@, now)->0, r->0),
    {
        match self.find_index(key) {
            None => None,
            Some(i) => {
                proof {
                    lemma_cache_index(self.entries@, key@);
                }
                let entry = &self.entries[i];
                if is_fresh(entry.cached_at, now) {
                    Some(entry.project.clone())
                } else {
                    None
                }
            },
        }
    }
}

/// The TTL window in action: an entry written at `t0` is still returned six
/// days later, and is treated as absent eight days later, even though it is
/// never deleted.
pub proof fn lemma_cache_ttl_window(
    entries: Seq<CacheEntry>,
    key: String,
    project: UpstreamProject,
    t0: i64,
)
    requires
        0 <= t0,
        t0 + 8 * 86400 <= i64::MAX,
        forall|i: int, j: int|
            0 <= i < j < entries.len() ==> (#[trigger] entries[i]).key@ != (
            #[trigger] entries[j]).key@,
    ensures
        spec_get(spec_put(entries, key, project, t0), key@, (t0 + 6 * 86400) as i64) == Some(
            project,
        ),
        spec_get(spec_put(entries, key, project, t0), key@, (t0 + 8 * 86400) as i64) is None,
        spec_put(entries, key, project, t0).len() >= entries.len(),
{
    let e = CacheEntry { key, project, cached_at: t0 };
    let after = spec_put(entries, key, project, t0);
    lemma_cache_index(entries, key@);
    let i = spec_cache_index(entries, key@);
    if i >= 0 {
        assert(after == entries.update(i, e));
        lemma_cache_index(after, key@);
        let i2 = spec_cache_index(after, key@);
        assert(after[i].key@ == key@);
        if i2 == -1 {
            assert(after[i].key@ != key@);
        }
        assert(i2 >= 0);
        if i2 < i {
            assert(after[i2] == entries[i2]);
            assert(entries[i2].key@ != key@);
        }
        if i2 > i {
            assert(after[i2].key@ != key@);
        }
        assert(i2 == i);
        assert(after[i2] == e);
    } else {
        assert(after == entries.push(e));
        lemma_cache_index(after, key@);
        let i2 = spec_cache_index(after, key@);
        assert(after[entries.len() as int] == e);
        if i2 == -1 {
            assert(after[entries.len() as int].key@ != key@);
        }
        assert(i2 >= 0);
        if i2 < entries.len() {
            assert(after[i2] == entries[i2]);
            assert(entries[i2].key@ != key@);
        }
        assert(i2 == entries.len());
        assert(after[i2] == e);
    }
}

} // verus!
