//! The slave registry: the set of currently live handles. A handle is a small
//! non-negative integer, unique among live instances; allocation hands out the
//! lowest non-negative integer not currently in use, and freeing a handle is
//! the only way to return it to the pool.

use vstd::prelude::*;

verus! {

/// An identifier that uniquely names a slave within a backend while the
/// slave is live.
pub type SlaveHandle = i32;

/// The set of live handles, kept as a strictly increasing vector of
/// non-negative integers.
pub struct SlaveRegistry {
    active: Vec<i32>,
}

impl SlaveRegistry {
    /// The live handles, in increasing order.
    pub closed spec fn active_seq(self) -> Seq<i32> {
        self.active@
    }

    /// Whether `h` is a live handle.
    pub open spec fn is_active(self, h: i32) -> bool {
        self.active_seq().contains(h)
    }

    /// Well-formedness: the vector is strictly increasing (hence free of
    /// duplicates) and every handle is non-negative.
    pub open spec fn wf(self) -> bool {
        &&& forall|i: int, j: int|
            0 <= i < j < self.active_seq().len() ==> self.active_seq()[i] < self.active_seq()[j]
        &&& forall|i: int| 0 <= i < self.active_seq().len() ==> self.active_seq()[i] >= 0
    }

    /// An empty registry: no handle is live.
    pub fn new() -> (r: SlaveRegistry)
        ensures
            r.wf(),
            r.active_seq().len() == 0,
            forall|g: i32| !r.is_active(g),
    {
        SlaveRegistry { active: Vec::new() }
    }

    /// How many handles are live.
    pub fn active_count(&self) -> (r: usize)
        ensures
            r == self.active_seq().len(),
    {
        self.active.len()
    }

    /// Whether `h` is live.
    pub fn contains_handle(&self, h: SlaveHandle) -> (r: bool)
        ensures
            r == self.is_active(h),
    {
        let mut i: usize = 0;
        while i < self.active.len()
            invariant
                i <= self.active@.len(),
                forall|j: int| 0 <= j < i ==> self.active@[j] != h,
            decreases self.active@.len() - i,
        {
            if self.active[i] == h {
                return true;
            }
            i += 1;
        }
        false
    }

    /// Allocates the lowest non-negative handle not currently in use and
    /// marks it live. The result is pinned down exactly: it was not live,
    /// it is now, every smaller non-negative integer was already live, and
    /// no other handle's liveness changes.
    pub fn get_free_handle(&mut self) -> (h: SlaveHandle)
        requires
            old(self).wf(),
            old(self).active_seq().len() < 0x7fff_ffff,
        ensures
            final(self).wf(),
            h >= 0,
            !old(self).is_active(h),
            final(self).is_active(h),
            forall|k: i32| 0 <= k < h ==> old(self).is_active(k),
            forall|g: i32| final(self).is_active(g) == (old(self).is_active(g) || g == h),
            final(self).active_seq().len() == old(self).active_seq().len() + 1,
    {
        let ghost pre = self.active@;
        let mut i: usize = 0;
        while i < self.active.len() && self.active[i] == i as i32
            invariant
                self.active@ == pre,
                i <= self.active@.len(),
                pre.len() < 0x7fff_ffff,
                forall|j: int| 0 <= j < i ==> self.active@[j] == j,
            decreases self.active@.len() - i,
        {
            i += 1;
        }
        let h: i32 = i as i32;
        proof {
            // At the gap, every later entry is strictly above h, so h is free.
            if i < pre.len() {
                assert(pre[i as int] != h);
                if i > 0 {
                    assert(pre[i as int - 1] == i - 1);
                }
                assert(pre[i as int] > h);
                assert forall|j: int| 0 <= j < pre.len() implies pre[j] != h by {
                    if j < i {
                        assert(pre[j] == j);
                    } else if j > i {
                        assert(pre[i as int] < pre[j]);
                    }
                }
            } else {
                assert forall|j: int| 0 <= j < pre.len() implies pre[j] != h by {
                    assert(pre[j] == j);
                }
            }
            assert(!pre.contains(h));
            assert forall|k: i32| 0 <= k < h implies old(self).is_active(k) by {
                assert(pre[k as int] == k as int);
            }
        }
        self.active.insert(i, h);
        proof {
            let post = self.active@;
            assert(post == pre.insert(i as int, h));
            assert forall|a: int, b: int|
                0 <= a < b < post.len() implies post[a] < post[b] by {
                if b < i {
                    assert(post[a] == pre[a] && post[b] == pre[b]);
                } else if a > i {
                    assert(post[a] == pre[a - 1] && post[b] == pre[b - 1]);
                } else if a < i && b == i {
                    assert(post[a] == pre[a] && pre[a] == a);
                } else if a == i && b > i {
                    assert(post[a] == h && post[b] == pre[b - 1]);
                    if i < pre.len() {
                        assert(pre[i as int] <= pre[b - 1]);
                    }
                } else {
                    assert(a < i && b > i);
                    assert(post[a] == pre[a] && pre[a] == a && post[b] == pre[b - 1]);
                    if i < pre.len() {
                        assert(pre[i as int] <= pre[b - 1]);
                    }
                }
            }
            assert(post[i as int] == h);
            assert(post.contains(h));
            assert forall|g: i32| final(self).is_active(g) == (pre.contains(g) || g == h) by {
                if post.contains(g) {
                    let w = choose|w: int| 0 <= w < post.len() && post[w] == g;
                    if w < i {
                        assert(pre[w] == g);
                    } else if w > i {
                        assert(pre[w - 1] == g);
                    }
                } else {
                    if pre.contains(g) {
                        let w = choose|w: int| 0 <= w < pre.len() && pre[w] == g;
                        if w < i {
                            assert(post[w] == g);
                        } else {
                            assert(post[w + 1] == g);
                        }
                    }
                }
            }
        }
        h
    }

    /// Removes `h` from the live set; a handle that is not live is left as
    /// it is (freeing is idempotent at the registry level).
    pub fn release_handle(&mut self, h: SlaveHandle)
        requires
            old(self).wf(),
        ensures
            final(self).wf(),
            forall|g: i32| final(self).is_active(g) == (old(self).is_active(g) && g != h),
    {
        let ghost pre = self.active@;
        let mut i: usize = 0;
        while i < self.active.len()
            invariant
                old(self).wf(),
                pre == old(self).active_seq(),
                self.active@ == pre,
                i <= pre.len(),
                forall|j: int| 0 <= j < i ==> pre[j] != h,
            decreases pre.len() - i,
        {
            if self.active[i] == h {
                self.active.remove(i);
                proof {
                    let post = self.active@;
                    assert(post == final(self).active_seq());
                    pre.remove_ensures(i as int);
                    assert(post == pre.remove(i as int));
                    assert forall|a: int, b: int|
                        0 <= a < b < post.len() implies post[a] < post[b] by {
                        let pa: int = if a < i { a } else { a + 1 };
                        let pb: int = if b < i { b } else { b + 1 };
                        assert(post[a] == pre[pa]);
                        assert(post[b] == pre[pb]);
                        assert(pre[pa] < pre[pb]);
                    }
                    assert forall|g: i32|
                        final(self).is_active(g) == (pre.contains(g) && g != h) by {
                        if post.contains(g) {
                            let w = choose|w: int| 0 <= w < post.len() && post[w] == g;
                            let pw: int = if w < i { w } else { w + 1 };
                            assert(post[w] == pre[pw]);
                            // The entry at i is the only occurrence of h:
                            // entries are strictly increasing.
                            if pw < i {
                                assert(pre[pw] < pre[i as int]);
                            } else {
                                assert(pre[i as int] < pre[pw]);
                            }
                            assert(g != h);
                        } else {
                            if pre.contains(g) && g != h {
                                let w = choose|w: int| 0 <= w < pre.len() && pre[w] == g;
                                assert(w != i);
                                if w < i {
                                    assert(post[w] == g);
                                } else {
                                    assert(post[w - 1] == g);
                                }
                                assert(post.contains(g));
                            }
                        }
                    }
                }
                return;
            }
            i += 1;
        }
        proof {
            assert forall|g: i32|
                final(self).is_active(g) == (pre.contains(g) && g != h) by {
                if pre.contains(g) && g == h {
                    let w = choose|w: int| 0 <= w < pre.len() && pre[w] == g;
                    assert(pre[w] != h);
                }
            }
        }
    }
}

/// Handle uniqueness: in a well-formed registry no two positions of the live
/// vector hold the same handle, so no two simultaneously live instances can
/// observe the same handle.
pub proof fn lemma_live_handles_distinct(r: SlaveRegistry)
    requires
        r.wf(),
    ensures
        forall|i: int, j: int|
            0 <= i < r.active_seq().len() && 0 <= j < r.active_seq().len() && i != j
                ==> r.active_seq()[i] != r.active_seq()[j],
{
    assert forall|i: int, j: int|
        0 <= i < r.active_seq().len() && 0 <= j < r.active_seq().len() && i != j
            implies r.active_seq()[i] != r.active_seq()[j] by {
        if i < j {
            assert(r.active_seq()[i] < r.active_seq()[j]);
        } else {
            assert(r.active_seq()[j] < r.active_seq()[i]);
        }
    }
}

/// The lowest free handle is unique: two handles that are both free while
/// everything below them is live must be the same handle. Hence after
/// `release_handle(h)` makes `h` the lowest free handle, the next
/// `get_free_handle` returns exactly `h` — a freed handle may legally be
/// handed out again.
pub proof fn lemma_lowest_free_handle_unique(r: SlaveRegistry, h1: i32, h2: i32)
    requires
        h1 >= 0,
        h2 >= 0,
        !r.is_active(h1),
        !r.is_active(h2),
        forall|k: i32| 0 <= k < h1 ==> r.is_active(k),
        forall|k: i32| 0 <= k < h2 ==> r.is_active(k),
    ensures
        h1 == h2,
{
    if h1 < h2 {
        assert(r.is_active(h1));
    }
    if h2 < h1 {
        assert(r.is_active(h2));
    }
}

/// A failed instantiation leaves no trace: allocating a handle and then
/// releasing that same handle restores exactly the liveness the registry
/// had before, so an instantiation that fails after allocation (spawn
/// failure, malformed handshake) leaves the registry without a new entry.
pub proof fn lemma_aborted_instantiation_invisible(
    before: SlaveRegistry,
    h: i32,
    mid: SlaveRegistry,
    after: SlaveRegistry,
)
    requires
        !before.is_active(h),
        forall|g: i32| mid.is_active(g) == (before.is_active(g) || g == h),
        forall|g: i32| after.is_active(g) == (mid.is_active(g) && g != h),
    ensures
        forall|g: i32| after.is_active(g) == before.is_active(g),
{
}

} // verus!

verus! {

impl SlaveRegistry {
    /// Empties the registry: afterwards no handle is live.
    pub fn clear(&mut self)
        ensures
            final(self).wf(),
            final(self).active_seq().len() == 0,
            forall|g: i32| !final(self).is_active(g),
    {
        self.active.clear();
    }
}

} // verus!
