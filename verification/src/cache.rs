//! Resource cache: stable handles to GPU-resident textures.
//!
//! The cache is the single owner of the mapping from logical resource
//! handles to the textures a backend has made resident. A lookup miss is a
//! transient, self-healing condition: the handle is recorded as pending and
//! queued for the loader exactly once, the entity is simply not drawn this
//! frame, and a later [`ResourceCache::insert`] resolves it. A failed load
//! is retry-eligible: the next lookup re-queues it.

use vstd::prelude::*;

verus! {

/// Identifier of one GPU-resident texture, handed out by the backend that
/// made the texture resident. Distinct from the stable resource handle.
#[derive(Clone, Copy, PartialEq, Eq, Structural, Debug)]
pub struct TextureId(pub u64);

/// Load status of one cached resource.
#[derive(Clone, Copy, PartialEq, Eq, Structural, Debug)]
pub enum CacheEntry {
    /// The resource is resident under this texture.
    Loaded(TextureId),
    /// A load was requested and has not completed.
    Pending,
    /// The last load failed; the next lookup requests it again.
    Failed,
}

/// Handle-to-texture cache with lazy loading and miss tracking.
///
/// `entries` is the status per known handle, keys unique; `pending` is the
/// queue of handles whose load the outside loader still owes, in request
/// order, each at most once.
pub struct ResourceCache {
    entries: Vec<(u128, CacheEntry)>,
    pending: Vec<u128>,
}

impl ResourceCache {
    /// The status entries, in insertion order.
    pub closed spec fn entries_seq(self) -> Seq<(u128, CacheEntry)> {
        self.entries@
    }

    /// The queued load requests, in request order.
    pub closed spec fn pending_seq(self) -> Seq<u128> {
        self.pending@
    }

    /// Whether the cache holds a status for `h`.
    pub open spec fn has_entry(self, h: u128) -> bool {
        exists|i: int| 0 <= i < self.entries_seq().len() && self.entries_seq()[i].0 == h
    }

    /// The index of the status of `h`; meaningful when `has_entry(h)` holds,
    /// and unique under `wf`.
    pub open spec fn entry_index(self, h: u128) -> int {
        choose|i: int| 0 <= i < self.entries_seq().len() && self.entries_seq()[i].0 == h
    }

    /// The status of `h`, if the cache knows the handle.
    pub open spec fn state_of(self, h: u128) -> Option<CacheEntry> {
        if self.has_entry(h) {
            Some(self.entries_seq()[self.entry_index(h)].1)
        } else {
            None
        }
    }

    /// The texture of `h`, if `h` is loaded.
    pub open spec fn loaded_texture(self, h: u128) -> Option<TextureId> {
        match self.state_of(h) {
            Some(CacheEntry::Loaded(t)) => Some(t),
            _ => None,
        }
    }

    /// The loaded part of the cache as a map from handle to texture.
    pub open spec fn loaded_map(self) -> Map<u128, TextureId> {
        Map::new(|h: u128| self.loaded_texture(h) is Some, |h: u128| self.loaded_texture(h)->Some_0)
    }

    /// Whether a load of `h` is queued.
    pub open spec fn pending_contains(self, h: u128) -> bool {
        exists|i: int| 0 <= i < self.pending_seq().len() && self.pending_seq()[i] == h
    }

    /// Well-formed: one status per handle, one queued request per handle,
    /// and every queued handle is in the `Pending` status.
    pub open spec fn wf(self) -> bool {
        &&& forall|i: int, j: int|
            0 <= i < j < self.entries_seq().len() ==> self.entries_seq()[i].0
                != self.entries_seq()[j].0
        &&& forall|i: int, j: int|
            0 <= i < j < self.pending_seq().len() ==> self.pending_seq()[i]
                != self.pending_seq()[j]
        &&& forall|h: u128|
            #[trigger] self.pending_contains(h) ==> self.state_of(h) == Some(CacheEntry::Pending)
    }

    /// An empty cache.
    pub fn new() -> (r: ResourceCache)
        ensures
            r.wf(),
            r.entries_seq().len() == 0,
            r.pending_seq().len() == 0,
    {
        ResourceCache { entries: Vec::new(), pending: Vec::new() }
    }

    /// The index of the status of `handle`, if any.
    fn find_entry(&self, handle: u128) -> (r: Option<usize>)
        ensures
            match r {
                Some(i) => i < self.entries_seq().len() && self.entries_seq()[i as int].0 == handle,
                None => !self.has_entry(handle),
            },
    {
        let n = self.entries.len();
        let mut i: usize = 0;
        while i < n
            invariant
                i <= n,
                n == self.entries_seq().len(),
                forall|j: int| 0 <= j < i ==> self.entries_seq()[j].0 != handle,
            decreases n - i,
        {
            if self.entries[i].0 == handle {
                return Some(i);
            }
            i = i + 1;
        }
        None
    }

    /// Look `handle` up. A loaded handle answers its texture and changes
    /// nothing. Any other handle answers `None` and is queued for the
    /// loader, exactly once: a handle already pending is left as it is.
    pub fn get_or_request(&mut self, handle: u128) -> (r: Option<TextureId>)
        requires
            old(self).wf(),
        ensures
            final(self).wf(),
            get_or_request_step(*old(self), *final(self), handle, r),
    {
        let found = self.find_entry(handle);
        match found {
            Some(i) => {
                proof {
                    lemma_entry_index_is(*self, handle, i as int);
                }
                match self.entries[i].1 {
                    CacheEntry::Loaded(t) => Some(t),
                    CacheEntry::Pending => None,
                    CacheEntry::Failed => {
                        let ghost pre = *self;
                        self.entries.set(i, (handle, CacheEntry::Pending));
                        proof {
                            lemma_entries_update(pre, *self, i as int, handle);
                            lemma_entry_index_is(*self, handle, i as int);
                            assert(!pre.pending_contains(handle));
                            assert(forall|j: int|
                                0 <= j < pre.pending_seq().len() ==> pre.pending_seq()[j]
                                    != handle);
                        }
                        self.pending.push(handle);
                        proof {
                            lemma_request_enqueued(pre, *self, handle);
                        }
                        None
                    },
                }
            },
            None => {
                let ghost pre = *self;
                self.entries.push((handle, CacheEntry::Pending));
                proof {
                    lemma_entries_update(pre, *self, pre.entries_seq().len() as int, handle);
                    lemma_entry_index_is(*self, handle, pre.entries_seq().len() as int);
                    assert(!pre.pending_contains(handle));
                    assert(forall|j: int|
                        0 <= j < pre.pending_seq().len() ==> pre.pending_seq()[j] != handle);
                }
                self.pending.push(handle);
                proof {
                    lemma_request_enqueued(pre, *self, handle);
                }
                None
            },
        }
    }

    /// Record the completed load of `handle` as `texture`, overwriting any
    /// prior status for the same handle, and drop any queued request for it.
    pub fn insert(&mut self, handle: u128, texture: TextureId)
        requires
            old(self).wf(),
        ensures
            final(self).wf(),
            insert_step(*old(self), *final(self), handle, texture),
    {
        let found = self.find_entry(handle);
        let ghost pre = *self;
        match found {
            Some(i) => {
                proof {
                    lemma_entry_index_is(*self, handle, i as int);
                }
                self.entries.set(i, (handle, CacheEntry::Loaded(texture)));
                proof {
                    lemma_entries_update(pre, *self, i as int, handle);
                    lemma_entry_index_is(*self, handle, i as int);
                }
            },
            None => {
                self.entries.push((handle, CacheEntry::Loaded(texture)));
                proof {
                    lemma_entries_update(pre, *self, pre.entries_seq().len() as int, handle);
                    lemma_entry_index_is(*self, handle, pre.entries_seq().len() as int);
                }
            },
        }
        let ghost mid = *self;
        proof {
            assert(mid.pending_seq() == pre.pending_seq());
            assert(pre.wf());
            assert(forall|a: int, b: int|
                0 <= a < b < mid.pending_seq().len() ==> mid.pending_seq()[a]
                    != mid.pending_seq()[b]);
        }
        self.remove_pending(handle);
        proof {
            lemma_queue_invariant_restored(pre, mid, *self, handle);
        }
    }

    /// Record that the load of `handle` failed, making it retry-eligible;
    /// a handle not in the `Pending` status is left untouched, so a stale
    /// failure never clobbers a completed load.
    pub fn mark_failed(&mut self, handle: u128)
        requires
            old(self).wf(),
        ensures
            final(self).wf(),
            mark_failed_step(*old(self), *final(self), handle),
    {
        let found = self.find_entry(handle);
        let ghost pre = *self;
        match found {
            Some(i) => {
                proof {
                    lemma_entry_index_is(*self, handle, i as int);
                }
                match self.entries[i].1 {
                    CacheEntry::Pending => {
                        self.entries.set(i, (handle, CacheEntry::Failed));
                        proof {
                            lemma_entries_update(pre, *self, i as int, handle);
                            lemma_entry_index_is(*self, handle, i as int);
                        }
                        let ghost mid = *self;
                        proof {
                            assert(mid.pending_seq() == pre.pending_seq());
                            assert(forall|a: int, b: int|
                                0 <= a < b < mid.pending_seq().len() ==> mid.pending_seq()[a]
                                    != mid.pending_seq()[b]);
                        }
                        self.remove_pending(handle);
                        proof {
                            lemma_queue_invariant_restored(pre, mid, *self, handle);
                        }
                    },
                    _ => {
                        proof {
                            assert(*self == pre);
                            assert(!pre.pending_contains(handle));
                        }
                    },
                }
            },
            None => {
                proof {
                    assert(!pre.pending_contains(handle));
                }
            },
        }
    }

    /// Hand the queued load requests to the loader, in request order,
    /// emptying the queue; the statuses stay `Pending` until the loader
    /// reports back through [`ResourceCache::insert`] or
    /// [`ResourceCache::mark_failed`], so nothing is queued twice meanwhile.
    pub fn take_pending(&mut self) -> (r: Vec<u128>)
        requires
            old(self).wf(),
        ensures
            final(self).wf(),
            r@ == old(self).pending_seq(),
            final(self).pending_seq().len() == 0,
            final(self).entries_seq() == old(self).entries_seq(),
            forall|h: u128| final(self).state_of(h) == old(self).state_of(h),
    {
        let mut out: Vec<u128> = Vec::new();
        let ghost orig = *self;
        let n = self.pending.len();
        let mut i: usize = 0;
        while i < n
            invariant
                i <= n,
                *self == orig,
                n == self.pending_seq().len(),
                out@ == self.pending_seq().subrange(0, i as int),
            decreases n - i,
        {
            out.push(self.pending[i]);
            proof {
                assert(out@ =~= self.pending_seq().subrange(0, i + 1));
            }
            i = i + 1;
        }
        proof {
            assert(*self == orig);
            assert(out@ =~= self.pending_seq());
        }
        self.pending = Vec::new();
        proof {
            assert(self.entries_seq() == old(self).entries_seq());
            assert(self.pending_seq().len() == 0);
            assert(forall|a: int, b: int|
                0 <= a < b < self.entries_seq().len() ==> self.entries_seq()[a].0
                    != self.entries_seq()[b].0);
            assert(forall|h: u128| !self.pending_contains(h));
            assert(self.wf());
        }
        out
    }

    /// Drop the queued request for `handle`, if one is queued.
    fn remove_pending(&mut self, handle: u128)
        requires
            forall|i: int, j: int|
                0 <= i < j < old(self).pending_seq().len() ==> old(self).pending_seq()[i] != old(
                    self,
                ).pending_seq()[j],
        ensures
            final(self).entries_seq() == old(self).entries_seq(),
            !final(self).pending_contains(handle),
            forall|x: u128|
                x != handle ==> final(self).pending_contains(x) == old(self).pending_contains(x),
            forall|i: int, j: int|
                0 <= i < j < final(self).pending_seq().len() ==> final(self).pending_seq()[i]
                    != final(self).pending_seq()[j],
    {
        let found = self.find_pending(handle);
        match found {
            Some(i) => {
                let ghost pre = *self;
                self.pending.remove(i);
                proof {
                    lemma_remove_at(pre, *self, i as int, handle);
                }
            },
            None => {
            },
        }
    }

    /// The queue position of `handle`, if one is queued.
    fn find_pending(&self, handle: u128) -> (r: Option<usize>)
        ensures
            match r {
                Some(i) => i < self.pending_seq().len() && self.pending_seq()[i as int] == handle,
                None => !self.pending_contains(handle),
            },
    {
        let n = self.pending.len();
        let mut i: usize = 0;
        while i < n
            invariant
                i <= n,
                n == self.pending_seq().len(),
                forall|j: int| 0 <= j < i ==> self.pending_seq()[j] != handle,
            decreases n - i,
        {
            if self.pending[i] == handle {
                return Some(i);
            }
            i = i + 1;
        }
        None
    }
}

/// What one queued-handle removal does to the queue: the removed handle is
/// gone, everything else is kept, distinctness survives; the entries are
/// not touched.
proof fn lemma_remove_at(pre: ResourceCache, post: ResourceCache, i: int, handle: u128)
    requires
        0 <= i < pre.pending_seq().len(),
        pre.pending_seq()[i] == handle,
        post.pending_seq() == pre.pending_seq().remove(i),
        forall|a: int, b: int|
            0 <= a < b < pre.pending_seq().len() ==> pre.pending_seq()[a] != pre.pending_seq()[b],
    ensures
        !post.pending_contains(handle),
        forall|x: u128|
            x != handle ==> post.pending_contains(x) == pre.pending_contains(x),
        forall|a: int, b: int|
            0 <= a < b < post.pending_seq().len() ==> post.pending_seq()[a]
                != post.pending_seq()[b],
{
    let p = pre.pending_seq();
    let q = post.pending_seq();
    p.remove_ensures(i);
    assert(forall|j: int| 0 <= j < i ==> q[j] == p[j]);
    assert(forall|j: int| i <= j < q.len() ==> q[j] == p[j + 1]);
    assert forall|j: int| 0 <= j < q.len() implies q[j] != handle by {
        if j < i {
            assert(p[j] != p[i]);
        } else {
            assert(p[j + 1] != p[i]);
        }
    }
    assert(!post.pending_contains(handle));
    assert forall|x: u128|
        x != handle implies post.pending_contains(x) == pre.pending_contains(x) by {
        if post.pending_contains(x) {
            let j = choose|j: int| 0 <= j < q.len() && q[j] == x;
            if j < i {
                assert(p[j] == x);
            } else {
                assert(p[j + 1] == x);
            }
            assert(pre.pending_contains(x));
        }
        if pre.pending_contains(x) {
            let j = choose|j: int| 0 <= j < p.len() && p[j] == x;
            if j < i {
                assert(q[j] == x);
            } else {
                assert(j != i);
                assert(q[j - 1] == x);
            }
            assert(post.pending_contains(x));
        }
    }
    assert forall|a: int, b: int|
        0 <= a < b < q.len() implies q[a] != q[b] by {
        if b < i {
            assert(p[a] != p[b]);
        } else if a < i {
            assert(p[a] != p[b + 1]);
        } else {
            assert(p[a + 1] != p[b + 1]);
        }
    }
}

/// Any index that carries the handle `h` is the looked-up index of `h`,
/// entry keys being unique.
proof fn lemma_entry_index_is(c: ResourceCache, h: u128, i: int)
    requires
        forall|a: int, b: int|
            0 <= a < b < c.entries_seq().len() ==> c.entries_seq()[a].0 != c.entries_seq()[b].0,
        0 <= i < c.entries_seq().len(),
        c.entries_seq()[i].0 == h,
    ensures
        c.has_entry(h),
        c.entry_index(h) == i,
        c.state_of(h) == Some(c.entries_seq()[i].1),
{
    assert(c.has_entry(h));
    let j = c.entry_index(h);
    if i < j {
        assert(c.entries_seq()[i].0 != c.entries_seq()[j].0);
    } else if j < i {
        assert(c.entries_seq()[j].0 != c.entries_seq()[i].0);
    }
}

/// Two caches whose entries agree everywhere but at index `i`, keyed `h` in
/// both, agree on the status of every handle other than `h`, and the second
/// keeps its entry keys unique.
proof fn lemma_entries_update(c1: ResourceCache, c2: ResourceCache, i: int, h: u128)
    requires
        forall|a: int, b: int|
            0 <= a < b < c1.entries_seq().len() ==> c1.entries_seq()[a].0 != c1.entries_seq()[b].0,
        c1.entries_seq().len() <= c2.entries_seq().len() <= c1.entries_seq().len() + 1,
        c2.entries_seq().len() == c1.entries_seq().len() + 1 ==> i == c1.entries_seq().len()
            && !c1.has_entry(h),
        0 <= i < c2.entries_seq().len(),
        forall|j: int|
            0 <= j < c1.entries_seq().len() && j != i ==> c2.entries_seq()[j] == c1.entries_seq()[j],
        i < c1.entries_seq().len() ==> c1.entries_seq()[i].0 == h,
        c2.entries_seq()[i].0 == h,
    ensures
        forall|a: int, b: int|
            0 <= a < b < c2.entries_seq().len() ==> c2.entries_seq()[a].0 != c2.entries_seq()[b].0,
        forall|x: u128| x != h ==> c2.state_of(x) == c1.state_of(x),
{
    let n1 = c1.entries_seq().len() as int;
    assert forall|a: int, b: int|
        0 <= a < b < c2.entries_seq().len() implies c2.entries_seq()[a].0 != c2.entries_seq()[b].0 by {
        if i < n1 {
            if a == i {
                assert(c1.entries_seq()[a].0 == h);
                assert(c1.entries_seq()[a].0 != c1.entries_seq()[b].0);
            } else if b == i {
                assert(c1.entries_seq()[b].0 == h);
                assert(c1.entries_seq()[a].0 != c1.entries_seq()[b].0);
            } else {
                assert(c1.entries_seq()[a].0 != c1.entries_seq()[b].0);
            }
        } else {
            if b == i {
                assert(c2.entries_seq()[a] == c1.entries_seq()[a]);
                assert(c1.entries_seq()[a].0 != h);
            } else {
                assert(c1.entries_seq()[a].0 != c1.entries_seq()[b].0);
            }
        }
    }
    assert forall|x: u128| x != h implies c2.state_of(x) == c1.state_of(x) by {
        if c1.has_entry(x) {
            let j = c1.entry_index(x);
            assert(0 <= j < c1.entries_seq().len() && c1.entries_seq()[j].0 == x);
            assert(j != i);
            assert(c2.entries_seq()[j].0 == x);
            lemma_entry_index_is(c2, x, j);
            assert(c1.state_of(x) == Some(c1.entries_seq()[j].1));
        } else {
            if c2.has_entry(x) {
                let j = c2.entry_index(x);
                assert(j != i);
                assert(j < c1.entries_seq().len());
                assert(c1.entries_seq()[j].0 == x);
                assert(c1.has_entry(x));
            }
            assert(!c2.has_entry(x));
        }
    }
}

/// Pushing a fresh handle onto the queue of a cache whose entry for it has
/// just turned `Pending` restores the queue part of well-formedness.
proof fn lemma_request_enqueued(pre: ResourceCache, post: ResourceCache, h: u128)
    requires
        pre.wf(),
        forall|j: int| 0 <= j < pre.pending_seq().len() ==> pre.pending_seq()[j] != h,
        post.pending_seq() == pre.pending_seq().push(h),
        post.state_of(h) == Some(CacheEntry::Pending),
        forall|x: u128| x != h ==> post.state_of(x) == pre.state_of(x),
        forall|a: int, b: int|
            0 <= a < b < post.entries_seq().len() ==> post.entries_seq()[a].0
                != post.entries_seq()[b].0,
    ensures
        post.wf(),
        post.pending_contains(h),
        forall|x: u128| x != h ==> post.pending_contains(x) == pre.pending_contains(x),
{
    assert(post.pending_seq()[post.pending_seq().len() - 1] == h);
    assert(post.pending_contains(h));
    assert forall|x: u128| x != h implies post.pending_contains(x) == pre.pending_contains(x) by {
        if pre.pending_contains(x) {
            let j = choose|j: int|
                0 <= j < pre.pending_seq().len() && pre.pending_seq()[j] == x;
            assert(post.pending_seq()[j] == x);
        }
        if post.pending_contains(x) {
            let j = choose|j: int|
                0 <= j < post.pending_seq().len() && post.pending_seq()[j] == x;
            assert(j < pre.pending_seq().len());
            assert(pre.pending_seq()[j] == x);
        }
    }
    assert forall|a: int, b: int|
        0 <= a < b < post.pending_seq().len() implies post.pending_seq()[a] != post.pending_seq()[b] by {
        if b < pre.pending_seq().len() {
            assert(pre.pending_seq()[a] != pre.pending_seq()[b]);
        } else {
            assert(post.pending_seq()[b] == h);
            assert(pre.pending_seq()[a] != h);
        }
    }
    assert forall|x: u128| #[trigger] post.pending_contains(x) implies post.state_of(x) == Some(
        CacheEntry::Pending,
    ) by {
        if x != h {
            assert(pre.pending_contains(x));
        }
    }
}

/// After an entry update that touched only `h` and a queue removal of `h`,
/// well-formedness holds again.
proof fn lemma_queue_invariant_restored(
    pre: ResourceCache,
    mid: ResourceCache,
    post: ResourceCache,
    h: u128,
)
    requires
        pre.wf(),
        mid.pending_seq() == pre.pending_seq(),
        forall|x: u128| x != h ==> mid.state_of(x) == pre.state_of(x),
        forall|a: int, b: int|
            0 <= a < b < mid.entries_seq().len() ==> mid.entries_seq()[a].0 != mid.entries_seq()[b].0,
        post.entries_seq() == mid.entries_seq(),
        !post.pending_contains(h),
        forall|x: u128| x != h ==> post.pending_contains(x) == mid.pending_contains(x),
        forall|a: int, b: int|
            0 <= a < b < post.pending_seq().len() ==> post.pending_seq()[a] != post.pending_seq()[b],
    ensures
        post.wf(),
        forall|x: u128| x != h ==> post.state_of(x) == pre.state_of(x),
        forall|x: u128| x != h ==> post.pending_contains(x) == pre.pending_contains(x),
        post.state_of(h) == mid.state_of(h),
{
    assert forall|x: u128| post.state_of(x) == mid.state_of(x) by {
        assert(post.entries_seq() == mid.entries_seq());
    }
    assert forall|x: u128| #[trigger] post.pending_contains(x) implies post.state_of(x) == Some(
        CacheEntry::Pending,
    ) by {
        assert(x != h);
        assert(mid.pending_contains(x));
        assert(pre.pending_contains(x));
        assert(pre.state_of(x) == Some(CacheEntry::Pending));
        assert(mid.state_of(x) == pre.state_of(x));
    }
}

/// What one [`ResourceCache::get_or_request`] call does: the answer is the
/// texture the handle was loaded with, the loaded part never changes, a hit
/// or an already-pending handle changes nothing, and an unknown or failed
/// handle turns `Pending` and is appended to the queue once.
pub open spec fn get_or_request_step(
    pre: ResourceCache,
    post: ResourceCache,
    h: u128,
    r: Option<TextureId>,
) -> bool {
    &&& r == pre.loaded_texture(h)
    &&& forall|x: u128| post.loaded_texture(x) == pre.loaded_texture(x)
    &&& (pre.loaded_texture(h) is Some ==> post == pre)
    &&& (pre.state_of(h) == Some(CacheEntry::Pending) ==> post == pre)
    &&& ((pre.state_of(h) is None || pre.state_of(h) == Some(CacheEntry::Failed)) ==> {
        &&& post.state_of(h) == Some(CacheEntry::Pending)
        &&& post.pending_seq() == pre.pending_seq().push(h)
    })
    &&& forall|x: u128| x != h ==> post.state_of(x) == pre.state_of(x)
    &&& forall|x: u128| x != h ==> post.pending_contains(x) == pre.pending_contains(x)
}

/// What one [`ResourceCache::insert`] call does: the handle is loaded with
/// exactly the inserted texture, its queued request if any is dropped, and
/// every other handle is untouched.
pub open spec fn insert_step(
    pre: ResourceCache,
    post: ResourceCache,
    h: u128,
    t: TextureId,
) -> bool {
    &&& post.state_of(h) == Some(CacheEntry::Loaded(t))
    &&& post.loaded_texture(h) == Some(t)
    &&& !post.pending_contains(h)
    &&& forall|x: u128| x != h ==> post.state_of(x) == pre.state_of(x)
    &&& forall|x: u128| x != h ==> post.pending_contains(x) == pre.pending_contains(x)
}

/// What one [`ResourceCache::mark_failed`] call does: a pending handle turns
/// `Failed` and leaves the queue; any other handle, loaded ones included, is
/// untouched.
pub open spec fn mark_failed_step(pre: ResourceCache, post: ResourceCache, h: u128) -> bool {
    &&& (pre.state_of(h) == Some(CacheEntry::Pending) ==> post.state_of(h) == Some(
        CacheEntry::Failed,
    ))
    &&& (pre.state_of(h) != Some(CacheEntry::Pending) ==> post == pre)
    &&& !post.pending_contains(h)
    &&& forall|x: u128| x != h ==> post.state_of(x) == pre.state_of(x)
    &&& forall|x: u128| x != h ==> post.pending_contains(x) == pre.pending_contains(x)
}

/// Law: a well-formed cache holds at most one outstanding load request per
/// handle: two queue positions holding the same handle are the same
/// position.
pub proof fn lemma_single_outstanding_request(c: ResourceCache, h: u128)
    requires
        c.wf(),
    ensures
        forall|i: int, j: int|
            0 <= i < c.pending_seq().len() && 0 <= j < c.pending_seq().len() && c.pending_seq()[i]
                == h && c.pending_seq()[j] == h ==> i == j,
{
    assert forall|i: int, j: int|
        0 <= i < c.pending_seq().len() && 0 <= j < c.pending_seq().len() && c.pending_seq()[i] == h
            && c.pending_seq()[j] == h implies i == j by {
        if i < j {
            assert(c.pending_seq()[i] != c.pending_seq()[j]);
        } else if j < i {
            assert(c.pending_seq()[j] != c.pending_seq()[i]);
        }
    }
}

/// Law: a repeated lookup of a handle that is not loaded is a no-op: the
/// first miss queued the load, the second changes nothing, so no duplicate
/// work is ever enqueued before the load completes or fails.
pub proof fn lemma_request_idempotent(
    c0: ResourceCache,
    c1: ResourceCache,
    c2: ResourceCache,
    h: u128,
    r1: Option<TextureId>,
    r2: Option<TextureId>,
)
    requires
        c0.wf(),
        c0.loaded_texture(h) is None,
        get_or_request_step(c0, c1, h, r1),
        get_or_request_step(c1, c2, h, r2),
    ensures
        c2 == c1,
        r1 is None,
        r2 is None,
{
    if c0.state_of(h) == Some(CacheEntry::Pending) {
        assert(c1 == c0);
    } else {
        assert(c1.state_of(h) == Some(CacheEntry::Pending));
    }
    assert(c1.loaded_texture(h) is None);
}

/// Law: after a resource is inserted for a handle, a lookup of that handle
/// answers exactly that resource and changes nothing; this repeats for every
/// further lookup until the next insert for the same handle, since a hit is
/// a no-op.
pub proof fn lemma_insert_then_get(
    c0: ResourceCache,
    c1: ResourceCache,
    c2: ResourceCache,
    h: u128,
    t: TextureId,
    r: Option<TextureId>,
)
    requires
        insert_step(c0, c1, h, t),
        get_or_request_step(c1, c2, h, r),
    ensures
        r == Some(t),
        c2 == c1,
        c2.loaded_texture(h) == Some(t),
{
}

/// Law: no operation but an insert for the handle itself changes what a
/// handle is loaded with: lookups never, failure marks never, and inserts
/// for other handles never.
pub proof fn lemma_loaded_stable(
    pre: ResourceCache,
    post: ResourceCache,
    h: u128,
    q: u128,
    t: TextureId,
    r: Option<TextureId>,
)
    ensures
        get_or_request_step(pre, post, q, r) ==> post.loaded_texture(h) == pre.loaded_texture(h),
        mark_failed_step(pre, post, q) && q != h ==> post.loaded_texture(h) == pre.loaded_texture(
            h,
        ),
        mark_failed_step(pre, post, h) && pre.loaded_texture(h) is Some
            ==> post.loaded_texture(h) == pre.loaded_texture(h),
        insert_step(pre, post, q, t) && q != h ==> post.loaded_texture(h) == pre.loaded_texture(h),
{
}

} // verus!
