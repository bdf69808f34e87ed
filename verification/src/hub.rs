//! The notification hub: the registry of live subscribers.
//!
//! Subscribers are known by numeric handles. Publishing a snapshot means
//! delivering it to every currently registered handle; delivery itself
//! (and dropping subscribers whose transport failed) is the caller's
//! business, so the hub only hands out the current recipient list.

use vstd::prelude::*;

verus! {

/// The index of the first occurrence of a handle, if any.
pub open spec fn handle_index_of(subs: Seq<u64>, h: u64) -> Option<int>
    decreases subs.len(),
{
    if subs.len() == 0 {
        None
    } else if subs[0] == h {
        Some(0)
    } else {
        match handle_index_of(subs.drop_first(), h) {
            None => None,
            Some(i) => Some(i + 1),
        }
    }
}

/// What `handle_index_of` finds: the first match, or proof that none
/// exists.
pub proof fn lemma_handle_index_of(subs: Seq<u64>, h: u64)
    ensures
        match handle_index_of(subs, h) {
            None => forall|j: int| 0 <= j < subs.len() ==> subs[j] != h,
            Some(i) => 0 <= i < subs.len() && subs[i] == h && forall|j: int|
                0 <= j < i ==> subs[j] != h,
        },
    decreases subs.len(),
{
    if subs.len() > 0 && subs[0] != h {
        let rest = subs.drop_first();
        lemma_handle_index_of(rest, h);
        assert(forall|j: int| 0 <= j < rest.len() ==> rest[j] == subs[j + 1]);
        match handle_index_of(rest, h) {
            None => {
                assert forall|j: int| 0 <= j < subs.len() implies subs[j] != h by {
                    if j > 0 {
                        assert(subs[j] == rest[j - 1]);
                    }
                }
            },
            Some(i) => {
                assert forall|j: int| 0 <= j < i + 1 implies subs[j] != h by {
                    if j > 0 {
                        assert(subs[j] == rest[j - 1]);
                    }
                }
            },
        }
    }
}

/// The converse: a first match determines the result of
/// `handle_index_of`.
pub proof fn lemma_handle_index_of_first(subs: Seq<u64>, h: u64, i: int)
    requires
        0 <= i < subs.len(),
        subs[i] == h,
        forall|j: int| 0 <= j < i ==> subs[j] != h,
    ensures
        handle_index_of(subs, h) == Some(i),
    decreases subs.len(),
{
    if i > 0 {
        lemma_handle_index_of_first(subs.drop_first(), h, i - 1);
    }
}

/// The registry of live subscribers.
#[derive(Debug)]
pub struct NotificationHub {
    pub subscribers: Vec<u64>,
    pub next_handle: u64,
}

impl NotificationHub {
    /// Well-formedness: handles are distinct and below the next one.
    pub open spec fn wf(self) -> bool {
        &&& forall|i: int, j: int|
            0 <= i < j < self.subscribers@.len() ==> self.subscribers@[i] != self.subscribers@[j]
        &&& forall|i: int|
            0 <= i < self.subscribers@.len() ==> #[trigger] self.subscribers@[i]
                < self.next_handle
    }

    /// An empty registry; handles start at 1.
    pub fn new() -> (hub: NotificationHub)
        ensures
            hub.wf(),
            hub.subscribers@.len() == 0,
            hub.next_handle == 1,
    {
        NotificationHub { subscribers: Vec::new(), next_handle: 1 }
    }

    /// Registers a new subscriber and returns its fresh handle.
    pub fn subscribe(&mut self) -> (h: u64)
        requires
            old(self).wf(),
            old(self).next_handle < u64::MAX,
        ensures
            final(self).wf(),
            h == old(self).next_handle,
            !old(self).subscribers@.contains(h),
            final(self).subscribers@ == old(self).subscribers@.push(h),
            final(self).next_handle == old(self).next_handle + 1,
    {
        let h = self.next_handle;
        self.subscribers.push(h);
        self.next_handle = self.next_handle + 1;
        h
    }

    /// The index of the first occurrence of a handle.
    fn index_of_handle(&self, h: u64) -> (r: Option<usize>)
        ensures
            match r {
                None => handle_index_of(self.subscribers@, h) is None,
                Some(i) => i < self.subscribers@.len() && self.subscribers@[i as int] == h
                    && handle_index_of(self.subscribers@, h) == Some(i as int),
            },
    {
        let mut i: usize = 0;
        while i < self.subscribers.len()
            invariant
                i <= self.subscribers@.len(),
                forall|j: int| 0 <= j < i ==> self.subscribers@[j] != h,
            decreases self.subscribers@.len() - i,
        {
            if self.subscribers[i] == h {
                proof {
                    lemma_handle_index_of_first(self.subscribers@, h, i as int);
                }
                return Some(i);
            }
            i = i + 1;
        }
        proof {
            lemma_handle_index_of(self.subscribers@, h);
            if handle_index_of(self.subscribers@, h) is Some {
                let k = handle_index_of(self.subscribers@, h)->Some_0;
                assert(self.subscribers@[k] == h);
            }
        }
        None
    }

    /// Removes a subscriber; removing a handle that is not registered
    /// (any more) changes nothing, so the operation is idempotent.
    pub fn unsubscribe(&mut self, h: u64)
        requires
            old(self).wf(),
        ensures
            final(self).wf(),
            final(self).next_handle == old(self).next_handle,
            match handle_index_of(old(self).subscribers@, h) {
                None => final(self).subscribers@ == old(self).subscribers@,
                Some(i) => final(self).subscribers@ == old(self).subscribers@.remove(i),
            },
            !final(self).subscribers@.contains(h),
            forall|x: u64|
                x != h ==> #[trigger] final(self).subscribers@.contains(x) == old(
                    self,
                ).subscribers@.contains(x),
    {
        let ghost pre = *old(self);
        let found = self.index_of_handle(h);
        match found {
            None => {
                proof {
                    lemma_handle_index_of(pre.subscribers@, h);
                    if pre.subscribers@.contains(h) {
                        let w = choose|w: int|
                            0 <= w < pre.subscribers@.len() && pre.subscribers@[w] == h;
                        assert(false);
                    }
                }
            },
            Some(idx) => {
                self.subscribers.remove(idx);
                proof {
                    pre.subscribers@.remove_ensures(idx as int);
                    assert forall|x: u64| x != h implies #[trigger] self.subscribers@.contains(x)
                        == pre.subscribers@.contains(x) by {
                        if pre.subscribers@.contains(x) {
                            let w = choose|w: int|
                                0 <= w < pre.subscribers@.len() && pre.subscribers@[w] == x;
                            if w < idx {
                                assert(self.subscribers@[w] == x);
                            } else {
                                assert(w != idx);
                                assert(self.subscribers@[w - 1] == x);
                            }
                        }
                        if self.subscribers@.contains(x) {
                            let w = choose|w: int|
                                0 <= w < self.subscribers@.len() && self.subscribers@[w] == x;
                            if w < idx {
                                assert(pre.subscribers@[w] == x);
                            } else {
                                assert(pre.subscribers@[w + 1] == x);
                            }
                        }
                    }
                    if self.subscribers@.contains(h) {
                        let w = choose|w: int|
                            0 <= w < self.subscribers@.len() && self.subscribers@[w] == h;
                        if w < idx {
                            assert(pre.subscribers@[w] == h && pre.subscribers@[idx as int] == h);
                        } else {
                            assert(pre.subscribers@[w + 1] == h && pre.subscribers@[idx as int]
                                == h);
                        }
                        assert(false);
                    }
                    assert forall|i2: int, j2: int|
                        0 <= i2 < j2 < self.subscribers@.len() implies self.subscribers@[i2]
                        != self.subscribers@[j2] by {
                        let oi = if i2 < idx { i2 } else { i2 + 1 };
                        let oj = if j2 < idx { j2 } else { j2 + 1 };
                        assert(self.subscribers@[i2] == pre.subscribers@[oi]);
                        assert(self.subscribers@[j2] == pre.subscribers@[oj]);
                    }
                    assert forall|i2: int| 0 <= i2 < self.subscribers@.len() implies (
                    #[trigger] self.subscribers@[i2]) < self.next_handle by {
                        let oi = if i2 < idx { i2 } else { i2 + 1 };
                        assert(self.subscribers@[i2] == pre.subscribers@[oi]);
                    }
                }
            },
        }
    }

    /// The handles a snapshot must currently be delivered to.
    pub fn recipients(&self) -> (v: Vec<u64>)
        ensures
            v@ == self.subscribers@,
    {
        let mut v: Vec<u64> = Vec::new();
        let mut i: usize = 0;
        while i < self.subscribers.len()
            invariant
                i <= self.subscribers@.len(),
                v@ == self.subscribers@.subrange(0, i as int),
            decreases self.subscribers@.len() - i,
        {
            v.push(self.subscribers[i]);
            proof {
                assert(v@ =~= self.subscribers@.subrange(0, i + 1));
            }
            i = i + 1;
        }
        proof {
            assert(v@ =~= self.subscribers@);
        }
        v
    }

    /// Number of registered subscribers.
    pub fn subscriber_count(&self) -> (n: usize)
        ensures
            n == self.subscribers@.len(),
    {
        self.subscribers.len()
    }
}

} // verus!
