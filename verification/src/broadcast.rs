//! Latest-value broadcaster.
//!
//! A single-producer, multi-consumer primitive in the watch-channel idiom:
//! one slot holding the current consolidated tick and a monotonically
//! increasing version counter that subscribers compare against. Publishing
//! overwrites the slot and never blocks; a subscriber polls and receives the
//! current value whenever it has not seen the slot's version yet, so a slow
//! subscriber skips intermediate values but always converges on the latest,
//! and no buffering grows per subscriber.
//!
//! A ghost history of the distinct published values ties the laws together:
//! consecutive history entries always differ, so a subscriber never observes
//! the same tick twice in a row, and between any two observations the
//! producer published something different from the earlier one.

use vstd::prelude::*;
use crate::orderbook::{empty_tick, OutTick, OutTickV};

verus! {

/// No two consecutive entries of a publish history are equal.
pub open spec fn adjacent_distinct(h: Seq<OutTickV>) -> bool {
    forall|k: int| 0 <= k < h.len() - 1 ==> #[trigger] h[k] != h[k + 1]
}

/// The producer-side slot: the latest consolidated tick and its version.
pub struct Broadcaster {
    current: OutTick,
    version: u64,
    history: Ghost<Seq<OutTickV>>,
}

impl Broadcaster {
    /// The value currently held.
    pub closed spec fn current_view(self) -> OutTickV {
        self.current@
    }

    /// The version of the value currently held; bumped on every change.
    pub closed spec fn version_of(self) -> u64 {
        self.version
    }

    /// All distinct values held so far, oldest first; the entry at
    /// `version_of()` is the current value.
    pub closed spec fn history_of(self) -> Seq<OutTickV> {
        self.history@
    }

    pub open spec fn wf(self) -> bool {
        &&& self.history_of().len() == self.version_of() + 1
        &&& self.history_of().last() == self.current_view()
        &&& adjacent_distinct(self.history_of())
    }

    /// A fresh broadcaster holds the empty consolidated tick.
    pub fn new() -> (b: Broadcaster)
        ensures
            b.wf(),
            b.current_view() == empty_tick(),
            b.version_of() == 0,
            b.history_of() == seq![empty_tick()],
    {
        let t = OutTick::new();
        let ghost h: Seq<OutTickV> = seq![t@];
        let b = Broadcaster { version: 0, history: Ghost(h), current: t };
        proof {
            assert(b.history_of().last() == empty_tick());
        }
        b
    }

    /// Stores `t`, overwriting the held value; a no-op when `t` equals the
    /// held value, so the version advances exactly on change and consecutive
    /// history entries always differ. Never blocks and never waits on any
    /// subscriber.
    pub fn publish(&mut self, t: OutTick)
        requires
            old(self).wf(),
            old(self).version_of() < u64::MAX,
        ensures
            final(self).wf(),
            final(self).current_view() == t@,
            t@ == old(self).current_view() ==> final(self).version_of() == old(
                self,
            ).version_of() && final(self).history_of() == old(self).history_of(),
            t@ != old(self).current_view() ==> final(self).version_of() == old(
                self,
            ).version_of() + 1 && final(self).history_of() == old(self).history_of().push(t@),
            old(self).history_of().is_prefix_of(final(self).history_of()),
            old(self).version_of() <= final(self).version_of(),
    {
        if self.current.same_as(&t) {
            proof {
                assert(old(self).history_of().is_prefix_of(self.history_of())) by {
                    assert(self.history_of() =~= self.history_of().subrange(
                        0,
                        self.history_of().len() as int,
                    ));
                }
            }
        } else {
            self.current = t;
            self.version = self.version + 1;
            let ghost h: Seq<OutTickV> = self.history@.push(self.current@);
            self.history = Ghost(h);
            proof {
                assert(h.last() == self.current@);
                assert(adjacent_distinct(h)) by {
                    assert forall|k: int| 0 <= k < h.len() - 1 implies #[trigger] h[k] != h[k
                        + 1] by {
                        if k < h.len() - 2 {
                            assert(h[k] == old(self).history_of()[k]);
                            assert(h[k + 1] == old(self).history_of()[k + 1]);
                        } else {
                            assert(h[k] == old(self).history_of().last());
                        }
                    }
                }
                assert(old(self).history_of().is_prefix_of(h)) by {
                    assert(old(self).history_of() =~= h.subrange(
                        0,
                        old(self).history_of().len() as int,
                    ));
                }
            }
        }
    }

    /// The version of the value currently held.
    pub fn version(&self) -> (v: u64)
        ensures
            v == self.version_of(),
    {
        self.version
    }

    /// The value currently held.
    pub fn latest(&self) -> (t: OutTick)
        ensures
            t@ == self.current_view(),
    {
        self.current.duplicate()
    }

    /// A new subscriber cursor. It has observed nothing yet, so its first
    /// poll yields exactly the value held at subscription time.
    pub fn subscribe(&self) -> (s: Subscription)
        ensures
            s.seen_of() is None,
    {
        Subscription { seen: None }
    }
}

/// One subscriber's cursor over a [`Broadcaster`]: the slot version it
/// observed last, if any.
pub struct Subscription {
    seen: Option<u64>,
}

impl Subscription {
    /// The slot version this cursor observed last, `None` for a fresh
    /// subscriber.
    pub closed spec fn seen_of(self) -> Option<u64> {
        self.seen
    }

    /// Observes the broadcaster: yields the held value exactly when this
    /// cursor has not seen the held version yet — in particular a fresh
    /// subscriber receives the current value immediately — and nothing
    /// otherwise, so the same tick is never observed twice in a row.
    pub fn poll(&mut self, b: &Broadcaster) -> (r: Option<OutTick>)
        ensures
            r is Some <==> old(self).seen_of() != Some(b.version_of()),
            r is Some ==> r->Some_0@ == b.current_view() && final(self).seen_of() == Some(
                b.version_of(),
            ),
            r is None ==> *final(self) == *old(self),
            b.wf() && r is Some ==> r->Some_0@ == b.history_of()[b.version_of() as int],
    {
        let fresh = match self.seen {
            None => true,
            Some(v) => v != b.version,
        };
        if fresh {
            self.seen = Some(b.version);
            proof {
                if b.wf() {
                    assert(b.history_of()[b.version_of() as int] == b.history_of().last());
                }
            }
            Some(b.latest())
        } else {
            None
        }
    }
}

/// Between any two entries of a publish history — in particular between any
/// two items observed by one subscriber — the producer published at least one
/// value that differs from the earlier entry.
pub proof fn lemma_publish_between(h: Seq<OutTickV>, i: int, j: int)
    requires
        adjacent_distinct(h),
        0 <= i < j < h.len(),
    ensures
        exists|k: int| i < k <= j && h[k] != h[i],
{
    assert(h[i] != h[i + 1]);
    assert(i < i + 1 <= j && h[i + 1] != h[i]);
}

/// The same, across publishes: a subscriber observed version `v1` when the
/// history was `h1`, and version `v2` later, when the history had grown to
/// `h2`. Versions only grow and a poll yields a value only for an unseen
/// version, so `v1 < v2`; the first observation is still `h2[v1]`, and at
/// least one intervening publish differed from it.
pub proof fn lemma_observed_change(h1: Seq<OutTickV>, h2: Seq<OutTickV>, v1: int, v2: int)
    requires
        adjacent_distinct(h2),
        h1.is_prefix_of(h2),
        0 <= v1 < h1.len(),
        v1 < v2 < h2.len(),
    ensures
        h2[v1] == h1[v1],
        exists|k: int| v1 < k <= v2 && h2[k] != h2[v1],
{
    lemma_publish_between(h2, v1, v2);
}

} // verus!
