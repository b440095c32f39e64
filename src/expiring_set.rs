//! A set of peers, each with a deadline, that hands out the peers whose deadline
//! has passed. Time is a monotonic clock reading supplied by the caller.

use crate::types::PeerId;
use vstd::prelude::*;

verus! {

/// A member of an expiring set and the clock reading at which it expires.
#[derive(Clone, Copy, Debug, PartialEq, Eq, Structural, Hash)]
pub struct Entry {
    pub item: PeerId,
    pub deadline: u64,
}

/// `a + b`, saturating at `u64::MAX`.
pub open spec fn sat_add(a: u64, b: u64) -> u64 {
    if a + b > u64::MAX {
        u64::MAX
    } else {
        (a + b) as u64
    }
}

pub open spec fn max_u64(a: u64, b: u64) -> u64 {
    if a >= b {
        a
    } else {
        b
    }
}

pub open spec fn seq_contains(s: Seq<Entry>, item: PeerId) -> bool {
    exists|i: int| 0 <= i < s.len() && (#[trigger] s[i]).item == item
}

/// The entries with `item` taken out (it occurs at most once in a well-formed set).
pub open spec fn remove_item(s: Seq<Entry>, item: PeerId) -> Seq<Entry> {
    if seq_contains(s, item) {
        s.remove(choose|i: int| 0 <= i < s.len() && (#[trigger] s[i]).item == item)
    } else {
        s
    }
}

/// The entries with each of `xs` taken out, first one first.
pub open spec fn remove_all(s: Seq<Entry>, xs: Seq<PeerId>) -> Seq<Entry>
    decreases xs.len(),
{
    if xs.len() == 0 {
        s
    } else {
        remove_item(remove_all(s, xs.drop_last()), xs.last())
    }
}

/// The members of `s` whose deadline is at most `now`, in deadline order.
pub open spec fn fired_of(s: Seq<Entry>, now: u64) -> Seq<PeerId> {
    items(s.take(expired_prefix(s, now)))
}

/// The number of leading entries whose deadline is at most `now`.
pub open spec fn expired_prefix(s: Seq<Entry>, now: u64) -> int
    decreases s.len(),
{
    if s.len() == 0 || s[0].deadline > now {
        0
    } else {
        1 + expired_prefix(s.drop_first(), now)
    }
}

/// The entries for `s`, each with deadline `d`.
pub open spec fn rearmed(s: Seq<PeerId>, d: u64) -> Seq<Entry> {
    s.map_values(|x: PeerId| Entry { item: x, deadline: d })
}

pub open spec fn items(s: Seq<Entry>) -> Seq<PeerId> {
    s.map_values(|e: Entry| e.item)
}

/// Members in the order they were (re)inserted; since every member gets the same
/// time to live and the clock never goes back, deadlines ascend along that order,
/// and ties keep insertion order.
pub struct ExpiringSet {
    entries: Vec<Entry>,
    ttl: u64,
    clock: u64,
}

impl View for ExpiringSet {
    type V = Seq<Entry>;

    closed spec fn view(&self) -> Seq<Entry> {
        self.entries@
    }
}

impl ExpiringSet {
    /// The time each member lives after its (re)insertion.
    pub closed spec fn ttl(&self) -> u64 {
        self.ttl
    }

    /// The latest clock reading an insertion has used.
    pub closed spec fn clock(&self) -> u64 {
        self.clock
    }

    pub closed spec fn wf(&self) -> bool {
        &&& forall|i: int, j: int|
            0 <= i < j < self.entries@.len() ==> (#[trigger] self.entries@[i]).item
                != (#[trigger] self.entries@[j]).item
        &&& forall|i: int, j: int|
            0 <= i <= j < self.entries@.len() ==> (#[trigger] self.entries@[i]).deadline
                <= (#[trigger] self.entries@[j]).deadline
        &&& forall|i: int|
            0 <= i < self.entries@.len() ==> (#[trigger] self.entries@[i]).deadline <= sat_add(
                self.clock,
                self.ttl,
            )
    }

    /// `self` is `old` after (re)inserting `item` at clock reading `now`.
    pub open spec fn spec_inserted(&self, old: &ExpiringSet, item: PeerId, now: u64) -> bool {
        &&& self.wf()
        &&& self.ttl() == old.ttl()
        &&& self.clock() == max_u64(now, old.clock())
        &&& self@ == remove_item(old@, item).push(
            Entry { item, deadline: sat_add(max_u64(now, old.clock()), old.ttl()) },
        )
        &&& self.spec_contains(item)
        &&& forall|x: PeerId| x != item ==> (self.spec_contains(x) == old.spec_contains(x))
    }

    /// The members whose deadline is at most `now`, in deadline order.
    pub open spec fn fired(&self, now: u64) -> Seq<PeerId> {
        fired_of(self@, now)
    }

    /// `self` is `old` after the members expired at `now` were handed out and
    /// reinserted, in the same order, with the fresh deadline `max(now, clock) + ttl`.
    pub open spec fn spec_rearmed(&self, old: &ExpiringSet, now: u64) -> bool {
        &&& self.wf()
        &&& self.ttl() == old.ttl()
        &&& self.clock() == max_u64(now, old.clock())
        &&& self@ == old@.skip(expired_prefix(old@, now)) + rearmed(
            old.fired(now),
            sat_add(max_u64(now, old.clock()), old.ttl()),
        )
        &&& forall|x: PeerId| #[trigger] self.spec_contains(x) == old.spec_contains(x)
    }

    /// `self` is `old` with `item` taken out.
    pub open spec fn spec_removed(&self, old: &ExpiringSet, item: PeerId) -> bool {
        &&& self.wf()
        &&& self@ == remove_item(old@, item)
        &&& self.ttl() == old.ttl()
        &&& self.clock() == old.clock()
        &&& !self.spec_contains(item)
        &&& forall|x: PeerId| x != item ==> (self.spec_contains(x) == old.spec_contains(x))
    }

    pub open spec fn spec_contains(&self, item: PeerId) -> bool {
        seq_contains(self@, item)
    }

    pub proof fn lemma_wf_unique(&self, i: int, j: int)
        requires
            self.wf(),
            0 <= i < self@.len(),
            0 <= j < self@.len(),
            self@[i].item == self@[j].item,
        ensures
            i == j,
    {
        if i < j {
            assert(self.entries@[i].item != self.entries@[j].item);
        } else if j < i {
            assert(self.entries@[j].item != self.entries@[i].item);
        }
    }

    /// An empty set whose members live `ttl` clock units.
    pub fn new(ttl: u64) -> (r: ExpiringSet)
        ensures
            r.wf(),
            r@ == Seq::<Entry>::empty(),
            r.ttl() == ttl,
            r.clock() == 0,
    {
        ExpiringSet { entries: Vec::new(), ttl, clock: 0 }
    }

    pub fn len(&self) -> (r: usize)
        ensures
            r == self@.len(),
    {
        self.entries.len()
    }

    fn position(&self, item: PeerId) -> (r: Option<usize>)
        ensures
            match r {
                Some(i) => i < self@.len() && self@[i as int].item == item,
                None => !self.spec_contains(item),
            },
    {
        let n = self.entries.len();
        for i in 0..n
            invariant
                n == self.entries@.len(),
                forall|j: int| 0 <= j < i ==> (#[trigger] self.entries@[j]).item != item,
        {
            if self.entries[i].item == item {
                return Some(i);
            }
        }
        None
    }

    /// Whether `item` is a member.
    pub fn contains(&self, item: PeerId) -> (r: bool)
        ensures
            r == self.spec_contains(item),
    {
        self.position(item).is_some()
    }

    /// The member's deadline, if it is a member.
    pub fn deadline(&self, item: PeerId) -> (r: Option<u64>)
        requires
            self.wf(),
        ensures
            match r {
                Some(d) => exists|i: int|
                    0 <= i < self@.len() && #[trigger] self@[i] == (Entry { item, deadline: d }),
                None => !self.spec_contains(item),
            },
    {
        match self.position(item) {
            Some(i) => Some(self.entries[i].deadline),
            None => None,
        }
    }

    /// The earliest deadline among the members, if there is a member.
    pub fn next_deadline(&self) -> (r: Option<u64>)
        requires
            self.wf(),
        ensures
            self@.len() == 0 ==> r.is_none(),
            self@.len() > 0 ==> r == Some(self@[0].deadline),
            forall|i: int| 0 <= i < self@.len() ==> r.unwrap() <= (#[trigger] self@[i]).deadline,
    {
        if self.entries.len() == 0 {
            None
        } else {
            Some(self.entries[0].deadline)
        }
    }

    /// Takes `item` out of the set, if it is there.
    pub fn remove(&mut self, item: PeerId)
        requires
            old(self).wf(),
        ensures
            final(self).spec_removed(old(self), item),
    {
        match self.position(item) {
            Some(i) => {
                let ghost s = self.entries@;
                proof {
                    assert forall|j: int| 0 <= j < s.len() && s[j].item == item implies j
                        == i by {
                        self.lemma_wf_unique(i as int, j);
                    }
                }
                self.entries.remove(i);
                assert(self.entries@ == remove_item(s, item));
                assert forall|j: int| 0 <= j < self.entries@.len() implies (
                #[trigger] self.entries@[j]).item != item by {
                    if j < i {
                        self.lemma_wf_unique_seq(s, j, i as int);
                    } else {
                        self.lemma_wf_unique_seq(s, j + 1, i as int);
                    }
                }
                assert forall|x: PeerId| x != item implies (seq_contains(self.entries@, x)
                    == seq_contains(s, x)) by {
                    if seq_contains(s, x) {
                        let k = choose|k: int| 0 <= k < s.len() && (#[trigger] s[k]).item == x;
                        if k < i {
                            assert(self.entries@[k] == s[k]);
                        } else {
                            assert(k != i);
                            assert(self.entries@[k - 1] == s[k]);
                        }
                    }
                }
            },
            None => {},
        }
    }

    proof fn lemma_wf_unique_seq(&self, s: Seq<Entry>, i: int, j: int)
        requires
            forall|a: int, b: int|
                0 <= a < b < s.len() ==> (#[trigger] s[a]).item != (#[trigger] s[b]).item,
            0 <= i < s.len(),
            0 <= j < s.len(),
            i != j,
        ensures
            s[i].item != s[j].item,
    {
        if i < j {
            assert(s[i].item != s[j].item);
        } else {
            assert(s[j].item != s[i].item);
        }
    }
    /// (Re)inserts `item` at clock reading `now`: it leaves its old place, if any,
    /// and joins at the end with deadline `max(now, clock) + ttl` (saturating).
    pub fn insert(&mut self, item: PeerId, now: u64)
        requires
            old(self).wf(),
        ensures
            final(self).spec_inserted(old(self), item, now),
    {
        self.remove(item);
        let ghost s = self.entries@;
        let t: u64 = if now >= self.clock {
            now
        } else {
            self.clock
        };
        let deadline = t.saturating_add(self.ttl);
        self.clock = t;
        let e = Entry { item, deadline };
        self.entries.push(e);
        proof {
            assert(self.entries@ == s.push(e));
            assert forall|i: int, j: int|
                0 <= i < j < self.entries@.len() implies (#[trigger] self.entries@[i]).item
                != (#[trigger] self.entries@[j]).item by {
                if j == s.len() {
                    assert(self.entries@[i] == s[i]);
                    assert(!seq_contains(s, item));
                }
            }
            assert(self.entries@[s.len() as int].item == item);
            assert forall|x: PeerId| x != item implies (seq_contains(self.entries@, x)
                == seq_contains(s, x)) by {
                if seq_contains(s, x) {
                    let k = choose|k: int| 0 <= k < s.len() && (#[trigger] s[k]).item == x;
                    assert(self.entries@[k] == s[k]);
                }
                if seq_contains(self.entries@, x) {
                    let k = choose|k: int|
                        0 <= k < self.entries@.len() && (#[trigger] self.entries@[k]).item == x;
                    assert(k < s.len());
                    assert(self.entries@[k] == s[k]);
                }
            }
        }
    }

    /// Hands out, in deadline order, every member whose deadline is at most `now`;
    /// they leave the set.
    pub fn pop_expired(&mut self, now: u64) -> (r: Vec<PeerId>)
        requires
            old(self).wf(),
        ensures
            final(self).wf(),
            final(self).ttl() == old(self).ttl(),
            final(self).clock() == old(self).clock(),
            0 <= expired_prefix(old(self)@, now) <= old(self)@.len(),
            r@ == items(old(self)@.take(expired_prefix(old(self)@, now))),
            r@.no_duplicates(),
            forall|x: PeerId|
                #[trigger] old(self).spec_contains(x) == (final(self).spec_contains(x) || r@.contains(
                    x,
                )),
            final(self)@ == old(self)@.skip(expired_prefix(old(self)@, now)),
            forall|i: int|
                0 <= i < old(self)@.len() ==> ((#[trigger] old(self)@[i]).deadline <= now <==> i
                    < expired_prefix(old(self)@, now)),
    {
        let ghost s = self.entries@;
        let n = self.entries.len();
        let mut k: usize = 0;
        let mut out: Vec<PeerId> = Vec::new();
        while k < n && self.entries[k].deadline <= now
            invariant
                n == s.len(),
                self.entries@ == s,
                self.wf(),
                k <= n,
                forall|j: int| 0 <= j < k ==> (#[trigger] s[j]).deadline <= now,
                out@ == items(s.take(k as int)),
            decreases n - k,
        {
            out.push(self.entries[k].item);
            proof {
                assert(s.take(k + 1) =~= s.take(k as int).push(s[k as int]));
                assert(items(s.take(k + 1)) =~= items(s.take(k as int)).push(s[k as int].item));
            }
            k = k + 1;
        }
        proof {
            self.lemma_expired_prefix(s, now, k as int);
        }
        let rest = self.entries.split_off(k);
        self.entries = rest;
        proof {
            let kk = k as int;
            assert(self.entries@ =~= s.skip(kk));
            assert forall|a: int, b: int| 0 <= a < b < out@.len() implies out@[a] != out@[b] by {
                assert(out@[a] == s[a].item);
                assert(out@[b] == s[b].item);
                assert(s[a].item != s[b].item);
            }
            assert forall|x: PeerId| #[trigger] seq_contains(s, x) == (seq_contains(
                self.entries@,
                x,
            ) || out@.contains(x)) by {
                if seq_contains(s, x) {
                    let j = choose|j: int| 0 <= j < s.len() && (#[trigger] s[j]).item == x;
                    if j < kk {
                        assert(out@[j] == x);
                    } else {
                        assert(self.entries@[j - kk] == s[j]);
                    }
                }
                if out@.contains(x) {
                    let j = choose|j: int| 0 <= j < out@.len() && out@[j] == x;
                    assert(s[j].item == x);
                }
                if seq_contains(self.entries@, x) {
                    let j = choose|j: int|
                        0 <= j < self.entries@.len() && (#[trigger] self.entries@[j]).item == x;
                    assert(s[j + kk] == self.entries@[j]);
                }
            }
        }
        out
    }

    /// Hands out, in deadline order, every member whose deadline is at most `now`, and
    /// reinserts each with a fresh deadline.
    pub fn expire_and_rearm(&mut self, now: u64) -> (r: Vec<PeerId>)
        requires
            old(self).wf(),
        ensures
            final(self).spec_rearmed(old(self), now),
            r@ == old(self).fired(now),
            r@.no_duplicates(),
            forall|i: int|
                0 <= i < old(self)@.len() ==> ((#[trigger] old(self)@[i]).deadline <= now <==> i
                    < expired_prefix(old(self)@, now)),
    {
        let ghost s = self.entries@;
        let ghost c0 = self.clock;
        let r = self.pop_expired(now);
        let ghost k = expired_prefix(s, now);
        let ghost rest = self.entries@;
        if now > self.clock {
            self.clock = now;
        }
        let d = self.clock.saturating_add(self.ttl);
        let n = r.len();
        for j in 0..n
            invariant
                n == r@.len(),
                0 <= k <= s.len(),
                r@ == items(s.take(k)),
                rest == s.skip(k),
                forall|a: int, b: int|
                    0 <= a < b < s.len() ==> (#[trigger] s[a]).item != (#[trigger] s[b]).item,
                forall|a: int| 0 <= a < s.len() ==> (#[trigger] s[a]).deadline <= sat_add(c0, self.ttl),
                self.clock == max_u64(now, c0),
                d == sat_add(self.clock, self.ttl),
                self.entries@ == rest + rearmed(r@.take(j as int), d),
                self.wf(),
                self.ttl == old(self).ttl,
        {
            let ghost before = self.entries@;
            let e = Entry { item: r[j], deadline: d };
            self.entries.push(e);
            proof {
                assert(r@.take(j + 1) =~= r@.take(j as int).push(r@[j as int]));
                assert(self.entries@ =~= rest + rearmed(r@.take(j + 1), d));
                assert(r@[j as int] == s[j as int].item);
                assert forall|a: int, b: int|
                    0 <= a < b < self.entries@.len() implies (#[trigger] self.entries@[a]).item
                    != (#[trigger] self.entries@[b]).item by {
                    if b == before.len() {
                        if a < rest.len() {
                            assert(self.entries@[a] == s[a + k]);
                            assert(s[j as int].item != s[a + k].item);
                        } else {
                            let m = a - rest.len();
                            assert(self.entries@[a].item == r@[m]);
                            assert(r@[m] == s[m].item);
                            assert(s[m].item != s[j as int].item);
                        }
                    } else {
                        assert(self.entries@[a] == before[a]);
                        assert(self.entries@[b] == before[b]);
                    }
                }
                assert forall|a: int| 0 <= a < before.len() implies (
                #[trigger] before[a]).deadline <= d by {
                    if a < rest.len() {
                        assert(before[a] == s[a + k]);
                    }
                }
            }
        }
        proof {
            assert(r@.take(n as int) =~= r@);
            assert forall|x: PeerId| #[trigger] self.spec_contains(x) == seq_contains(s, x) by {
                let t = self.entries@;
                if seq_contains(s, x) {
                    let j = choose|j: int| 0 <= j < s.len() && (#[trigger] s[j]).item == x;
                    if j < k {
                        assert(t[rest.len() + j].item == x);
                    } else {
                        assert(t[j - k] == s[j]);
                    }
                }
                if seq_contains(t, x) {
                    let j = choose|j: int| 0 <= j < t.len() && (#[trigger] t[j]).item == x;
                    if j < rest.len() {
                        assert(s[j + k] == t[j]);
                    } else {
                        assert(s[j - rest.len()].item == x);
                    }
                }
            }
        }
        r
    }

    proof fn lemma_expired_prefix(&self, s: Seq<Entry>, now: u64, k: int)
        requires
            self.wf(),
            self.entries@ == s,
            0 <= k <= s.len(),
            forall|j: int| 0 <= j < k ==> (#[trigger] s[j]).deadline <= now,
            k == s.len() || s[k].deadline > now,
        ensures
            expired_prefix(s, now) == k,
            forall|i: int| 0 <= i < s.len() ==> ((#[trigger] s[i]).deadline <= now <==> i < k),
    {
        assert forall|i: int| 0 <= i < s.len() implies ((#[trigger] s[i]).deadline <= now <==> i
            < k) by {
            if i >= k {
                assert(s[k].deadline <= s[i].deadline);
            }
        }
        lemma_prefix_count(s, now, k);
    }
}

proof fn lemma_prefix_count(s: Seq<Entry>, now: u64, k: int)
    requires
        0 <= k <= s.len(),
        forall|j: int| 0 <= j < k ==> (#[trigger] s[j]).deadline <= now,
        k == s.len() || s[k].deadline > now,
    ensures
        expired_prefix(s, now) == k,
    decreases k,
{
    if k > 0 {
        let t = s.drop_first();
        assert forall|j: int| 0 <= j < k - 1 implies (#[trigger] t[j]).deadline <= now by {
            assert(t[j] == s[j + 1]);
        }
        if k < s.len() {
            assert(t[k - 1] == s[k]);
        }
        lemma_prefix_count(t, now, k - 1);
        assert(s[0].deadline <= now);
    }
}

proof fn lemma_expired_prefix_sorted(s: Seq<Entry>, now: u64)
    requires
        forall|i: int, j: int| 0 <= i <= j < s.len() ==> (#[trigger] s[i]).deadline <= (#[trigger] s[j]).deadline,
    ensures
        0 <= expired_prefix(s, now) <= s.len(),
        forall|i: int|
            0 <= i < s.len() ==> ((#[trigger] s[i]).deadline <= now <==> i < expired_prefix(s, now)),
    decreases s.len(),
{
    if s.len() > 0 {
        let t = s.drop_first();
        assert forall|i: int, j: int| 0 <= i <= j < t.len() implies (#[trigger] t[i]).deadline <= (
        #[trigger] t[j]).deadline by {
            assert(t[i] == s[i + 1] && t[j] == s[j + 1]);
        }
        lemma_expired_prefix_sorted(t, now);
        assert forall|i: int| 0 <= i < s.len() implies ((#[trigger] s[i]).deadline <= now <==> i
            < expired_prefix(s, now)) by {
            if i > 0 {
                assert(s[i] == t[i - 1]);
            }
            if s[0].deadline > now {
                assert(s[0].deadline <= s[i].deadline);
            }
        }
    }
}

/// With a clock that does not go back, re-arming fires each member whose deadline has
/// passed exactly once, fires no other member, and gives each fired member the deadline
/// `now + ttl`.
pub proof fn lemma_rearm_fires_once(old: ExpiringSet, new: ExpiringSet, now: u64)
    requires
        old.wf(),
        new.spec_rearmed(&old, now),
        now >= old.clock(),
    ensures
        old.fired(now).no_duplicates(),
        forall|x: PeerId|
            #[trigger] old.fired(now).contains(x) <==> exists|i: int|
                0 <= i < old@.len() && (#[trigger] old@[i]).item == x && old@[i].deadline <= now,
        new@.len() == old@.len(),
        forall|j: int|
            0 <= j < old.fired(now).len() ==> #[trigger] new@[new@.len() - old.fired(now).len() + j]
                == (Entry { item: old.fired(now)[j], deadline: sat_add(now, old.ttl()) }),
{
    let s = old@;
    lemma_expired_prefix_sorted(s, now);
    let k = expired_prefix(s, now);
    let f = old.fired(now);
    assert(f.len() == k);
    assert forall|a: int, b: int| 0 <= a < b < f.len() implies f[a] != f[b] by {
        assert(f[a] == s[a].item && f[b] == s[b].item);
        assert(old.entries@[a].item != old.entries@[b].item);
    }
    assert forall|x: PeerId| #[trigger] f.contains(x) <==> exists|i: int|
        0 <= i < s.len() && (#[trigger] s[i]).item == x && s[i].deadline <= now by {
        if f.contains(x) {
            let j = choose|j: int| 0 <= j < f.len() && f[j] == x;
            assert(s[j].item == x);
        }
        if exists|i: int| 0 <= i < s.len() && (#[trigger] s[i]).item == x && s[i].deadline <= now {
            let i = choose|i: int| 0 <= i < s.len() && (#[trigger] s[i]).item == x && s[i].deadline <= now;
            assert(f[i] == x);
        }
    }
    assert forall|j: int| 0 <= j < f.len() implies #[trigger] new@[new@.len() - f.len() + j] == (
    Entry { item: f[j], deadline: sat_add(now, old.ttl()) }) by {
        assert(new@[new@.len() - f.len() + j] == rearmed(f, sat_add(max_u64(now, old.clock()), old.ttl()))[j]);
    }
}

} // verus!
