//! Keyed collection of cache freshness policies plus the decision logic in
//! front of an external backing store.  The store itself (get/set/clear by
//! key) is a collaborator driven by the host; this module owns only the
//! per-key freshness state and the serve-or-recompute decision.

use crate::policy::{
    spec_absorb_rel, spec_rerun_next, spec_rerun_result, CacheFreshnessPolicy, LATENCY_MAX_US,
};
use vstd::prelude::*;

verus! {

/// A payload fetched from the backing store, handed back to the host with
/// its byte length.
pub struct CacheResult {
    pub len: i32,
    pub bytes: Vec<u8>,
}

impl CacheResult {
    pub fn new(len: i32, bytes: Vec<u8>) -> (r: CacheResult)
        ensures
            r.len == len,
            r.bytes@ == bytes@,
    {
        CacheResult { len, bytes }
    }

    /// The held byte length.
    pub fn byte_len(&self) -> (r: i32)
        ensures
            r == self.len,
    {
        self.len
    }
}

/// What the caller should do on a lookup.
#[derive(Clone, Copy, Debug, PartialEq, Eq, Structural)]
pub enum CacheLookup {
    /// Treat as a miss: recompute the result and store it.
    Recompute,
    /// Serve from the backing store; a store miss is still a miss.
    ConsultStore,
}

/// One cache slot: the query text and its freshness policy.
pub struct CachePolicyEntry {
    pub key: String,
    pub policy: CacheFreshnessPolicy,
}

/// Mapping from query text to exactly one freshness policy.
pub struct ResultCache {
    pub policies: Vec<CachePolicyEntry>,
}

/// Every key other than `k` sees the same cache before and after.
pub open spec fn spec_cache_frame_except(pre: ResultCache, post: ResultCache, k: Seq<char>) -> bool {
    forall|q: Seq<char>|
        q != k ==> (#[trigger] post.spec_contains(q) <==> pre.spec_contains(q)) && (
        pre.spec_contains(q) ==> post.spec_get(q) == pre.spec_get(q))
}

impl ResultCache {
    /// The query text of slot `i`.
    pub open spec fn key_at(self, i: int) -> Seq<char> {
        self.policies@[i].key@
    }

    /// Keys are unique and every policy is well formed.
    pub open spec fn wf(self) -> bool {
        &&& forall|i: int|
            0 <= i < self.policies@.len() ==> (#[trigger] self.policies@[i]).policy.wf()
        &&& forall|i: int, j: int|
            0 <= i < j < self.policies@.len() ==> #[trigger] self.key_at(i)
                != #[trigger] self.key_at(j)
    }

    /// Whether a policy exists for this query text.
    pub open spec fn spec_contains(self, k: Seq<char>) -> bool {
        exists|i: int| 0 <= i < self.policies@.len() && #[trigger] self.key_at(i) == k
    }

    /// The policy held for this query text.
    pub open spec fn spec_get(self, k: Seq<char>) -> CacheFreshnessPolicy {
        self.policies@[choose|i: int|
            0 <= i < self.policies@.len() && #[trigger] self.key_at(i) == k].policy
    }

    /// An empty cache with no per-key policies.
    pub fn new() -> (r: ResultCache)
        ensures
            r.wf(),
            r.policies@.len() == 0,
            forall|q: Seq<char>| !r.spec_contains(q),
    {
        ResultCache { policies: Vec::new() }
    }

    /// The slot holding this query text, if any.
    fn find_index(&self, key: &String) -> (r: Option<usize>)
        ensures
            (r matches Some(i) ==> 0 <= i < self.policies@.len() && self.key_at(i as int)
                == key@),
            r is None ==> !self.spec_contains(key@),
    {
        let n = self.policies.len();
        let mut i: usize = 0;
        while i < n
            invariant
                0 <= i <= n,
                n == self.policies@.len(),
                forall|j: int| 0 <= j < i ==> #[trigger] self.key_at(j) != key@,
            decreases n - i,
        {
            if self.policies[i].key == *key {
                return Some(i);
            }
            i = i + 1;
        }
        None
    }

    /// With unique keys, slot `i` is the one the key-indexed view denotes.
    proof fn lemma_get_at(self, i: int)
        requires
            self.wf(),
            0 <= i < self.policies@.len(),
        ensures
            self.spec_contains(self.key_at(i)),
            self.spec_get(self.key_at(i)) == self.policies@[i].policy,
    {
        let k = self.key_at(i);
        assert(self.spec_contains(k));
        let j = choose|j: int| 0 <= j < self.policies@.len() && #[trigger] self.key_at(j) == k;
        if j < i {
            assert(self.key_at(j) != self.key_at(i));
        } else if i < j {
            assert(self.key_at(i) != self.key_at(j));
        }
    }

    /// The serve-or-recompute decision for one lookup.  Without the policy,
    /// always consult the store.  With it: a key never seen forces a
    /// recompute; otherwise the key's backoff state decides, advancing by one
    /// fetch.
    pub fn lookup_decision(&mut self, key: &String, use_policy: bool) -> (r: CacheLookup)
        requires
            old(self).wf(),
        ensures
            final(self).wf(),
            !use_policy ==> r is ConsultStore && *final(self) == *old(self),
            use_policy && !old(self).spec_contains(key@) ==> r is Recompute && *final(self)
                == *old(self),
            use_policy && old(self).spec_contains(key@) ==> {
                &&& r == (if spec_rerun_result(old(self).spec_get(key@)) {
                    CacheLookup::Recompute
                } else {
                    CacheLookup::ConsultStore
                })
                &&& final(self).spec_get(key@) == spec_rerun_next(old(self).spec_get(key@))
                &&& final(self).spec_contains(key@)
                &&& spec_cache_frame_except(*old(self), *final(self), key@)
            },
    {
        if !use_policy {
            return CacheLookup::ConsultStore;
        }
        match self.find_index(key) {
            None => CacheLookup::Recompute,
            Some(i) => {
                proof {
                    old(self).lemma_get_at(i as int);
                }
                let mut e = self.policies.remove(i);
                let rerun = e.policy.should_rerun();
                self.policies.insert(i, e);
                proof {
                    assert(self.policies@ =~= old(self).policies@.update(
                        i as int,
                        self.policies@[i as int],
                    ));
                    lemma_cache_frame_update(*old(self), *self, i as int);
                    self.lemma_get_at(i as int);
                }
                if rerun {
                    CacheLookup::Recompute
                } else {
                    CacheLookup::ConsultStore
                }
            },
        }
    }

    /// Absorb a completed latency for this query text, creating its policy
    /// lazily on first observation.
    pub fn record_latency(&mut self, key: &String, latency_us: u64)
        requires
            old(self).wf(),
            latency_us <= LATENCY_MAX_US,
        ensures
            final(self).wf(),
            final(self).spec_contains(key@),
            old(self).spec_contains(key@) ==> spec_absorb_rel(
                old(self).spec_get(key@),
                latency_us as int,
                final(self).spec_get(key@),
            ),
            !old(self).spec_contains(key@) ==> {
                &&& final(self).spec_get(key@).fetches == 0
                &&& final(self).spec_get(key@).backoff == 1
                &&& final(self).spec_get(key@).times.obs@ == seq![(latency_us as int, 1int)]
            },
            spec_cache_frame_except(*old(self), *final(self), key@),
    {
        match self.find_index(key) {
            Some(i) => {
                proof {
                    old(self).lemma_get_at(i as int);
                }
                let mut e = self.policies.remove(i);
                e.policy.absorb_latency(latency_us);
                self.policies.insert(i, e);
                proof {
                    assert(self.policies@ =~= old(self).policies@.update(
                        i as int,
                        self.policies@[i as int],
                    ));
                    lemma_cache_frame_update(*old(self), *self, i as int);
                    self.lemma_get_at(i as int);
                }
            },
            None => {
                let mut policy = CacheFreshnessPolicy::new();
                policy.absorb_latency(latency_us);
                let e = CachePolicyEntry { key: key.clone(), policy };
                self.policies.push(e);
                proof {
                    lemma_cache_frame_push(*old(self), *self);
                    self.lemma_get_at(self.policies@.len() - 1);
                }
            },
        }
    }
}

/// Replacing one slot while keeping its key leaves every other key's view of
/// the cache unchanged.
proof fn lemma_cache_frame_update(pre: ResultCache, post: ResultCache, i: int)
    requires
        pre.wf(),
        0 <= i < pre.policies@.len(),
        post.policies@ == pre.policies@.update(i, post.policies@[i]),
        post.key_at(i) == pre.key_at(i),
        post.policies@[i].policy.wf(),
    ensures
        post.wf(),
        spec_cache_frame_except(pre, post, pre.key_at(i)),
{
    assert(forall|j: int|
        0 <= j < post.policies@.len() ==> #[trigger] post.key_at(j) == pre.key_at(j));
    assert forall|j: int|
        0 <= j < post.policies@.len() implies (#[trigger] post.policies@[j]).policy.wf() by {
        if j != i {
            assert(post.policies@[j] == pre.policies@[j]);
        }
    }
    assert(post.wf());
    assert forall|q: Seq<char>|
        q != pre.key_at(i) && pre.spec_contains(q) implies #[trigger] post.spec_contains(q)
        && post.spec_get(q) == pre.spec_get(q) by {
        let j = choose|j: int| 0 <= j < pre.policies@.len() && #[trigger] pre.key_at(j) == q;
        assert(post.key_at(j) == q);
        pre.lemma_get_at(j);
        post.lemma_get_at(j);
    }
    assert forall|q: Seq<char>|
        q != pre.key_at(i) && #[trigger] post.spec_contains(q) implies pre.spec_contains(q) by {
        let j = choose|j: int| 0 <= j < post.policies@.len() && #[trigger] post.key_at(j) == q;
        assert(pre.key_at(j) == q);
    }
}

/// Appending a slot with a key not yet present leaves every other key's view
/// unchanged.
proof fn lemma_cache_frame_push(pre: ResultCache, post: ResultCache)
    requires
        pre.wf(),
        post.policies@.len() == pre.policies@.len() + 1,
        post.policies@ == pre.policies@.push(post.policies@.last()),
        post.policies@.last().policy.wf(),
        !pre.spec_contains(post.key_at(post.policies@.len() - 1)),
    ensures
        post.wf(),
        spec_cache_frame_except(pre, post, post.key_at(post.policies@.len() - 1)),
{
    let n = pre.policies@.len() as int;
    assert(forall|j: int| 0 <= j < n ==> #[trigger] post.key_at(j) == pre.key_at(j));
    assert forall|i: int, j: int|
        0 <= i < j < post.policies@.len() implies #[trigger] post.key_at(i)
        != #[trigger] post.key_at(j) by {
        if j < n {
        } else {
            assert(post.key_at(i) == pre.key_at(i));
            if post.key_at(i) == post.key_at(j) {
                assert(pre.spec_contains(pre.key_at(i)));
            }
        }
    }
    assert forall|q: Seq<char>|
        q != post.key_at(n) && pre.spec_contains(q) implies #[trigger] post.spec_contains(q)
        && post.spec_get(q) == pre.spec_get(q) by {
        let j = choose|j: int| 0 <= j < pre.policies@.len() && #[trigger] pre.key_at(j) == q;
        assert(post.key_at(j) == q);
        pre.lemma_get_at(j);
        post.lemma_get_at(j);
    }
    assert forall|q: Seq<char>|
        q != post.key_at(n) && #[trigger] post.spec_contains(q) implies pre.spec_contains(q) by {
        let j = choose|j: int| 0 <= j < post.policies@.len() && #[trigger] post.key_at(j) == q;
        assert(j < n);
        assert(pre.key_at(j) == q);
    }
}

} // verus!
