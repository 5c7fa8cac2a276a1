//! Pending friend requests: one ordered relation of (sender, recipient)
//! pairs. A sender's "remembered" list and a recipient's "received" list
//! are the two sides of the same relation, so the mirror invariant between
//! them holds by construction; both sides are bounded, oldest evicted.

use vstd::prelude::*;
use crate::ids::Uuid;

verus! {

/// A sender may remember at most this many undelivered requests.
pub const REMEMBERED_LIMIT: usize = 5;

/// A recipient may have at most this many requests waiting.
pub const RECEIVED_LIMIT: usize = 10;

/// The recipients a sender has pending requests to, oldest first.
pub open spec fn sent_by(s: Seq<(Uuid, Uuid)>, a: Uuid) -> Seq<Uuid>
    decreases s.len(),
{
    if s.len() == 0 {
        seq![]
    } else if s[0].0 == a {
        seq![s[0].1] + sent_by(s.drop_first(), a)
    } else {
        sent_by(s.drop_first(), a)
    }
}

/// The senders with pending requests to a recipient, oldest first.
pub open spec fn received_by(s: Seq<(Uuid, Uuid)>, b: Uuid) -> Seq<Uuid>
    decreases s.len(),
{
    if s.len() == 0 {
        seq![]
    } else if s[0].1 == b {
        seq![s[0].0] + received_by(s.drop_first(), b)
    } else {
        received_by(s.drop_first(), b)
    }
}

/// The relation without the oldest pair of the given sender.
pub open spec fn drop_oldest_sent(s: Seq<(Uuid, Uuid)>, a: Uuid) -> Seq<(Uuid, Uuid)>
    decreases s.len(),
{
    if s.len() == 0 {
        s
    } else if s[0].0 == a {
        s.drop_first()
    } else {
        seq![s[0]] + drop_oldest_sent(s.drop_first(), a)
    }
}

/// The relation without the oldest pair of the given recipient.
pub open spec fn drop_oldest_received(s: Seq<(Uuid, Uuid)>, b: Uuid) -> Seq<(Uuid, Uuid)>
    decreases s.len(),
{
    if s.len() == 0 {
        s
    } else if s[0].1 == b {
        s.drop_first()
    } else {
        seq![s[0]] + drop_oldest_received(s.drop_first(), b)
    }
}

/// The relation without every pair of the given recipient.
pub open spec fn remove_recipient(s: Seq<(Uuid, Uuid)>, b: Uuid) -> Seq<(Uuid, Uuid)>
    decreases s.len(),
{
    if s.len() == 0 {
        s
    } else if s[0].1 == b {
        remove_recipient(s.drop_first(), b)
    } else {
        seq![s[0]] + remove_recipient(s.drop_first(), b)
    }
}

/// What one enqueued request does to the relation: the pair is appended,
/// then each overfull side evicts its oldest pair.
pub open spec fn enqueue_spec(s: Seq<(Uuid, Uuid)>, from: Uuid, to: Uuid) -> Seq<(Uuid, Uuid)> {
    if s.contains((from, to)) {
        s
    } else {
        let s1 = s.push((from, to));
        let s2 = if sent_by(s1, from).len() > REMEMBERED_LIMIT {
            drop_oldest_sent(s1, from)
        } else {
            s1
        };
        if received_by(s2, to).len() > RECEIVED_LIMIT {
            drop_oldest_received(s2, to)
        } else {
            s2
        }
    }
}

/// No pair occurs twice.
pub open spec fn unique_pairs(s: Seq<(Uuid, Uuid)>) -> bool {
    forall|i: int, j: int| 0 <= i < j < s.len() ==> s[i] != s[j]
}

/// Both sides of every bucket are within their bounds.
pub open spec fn bounded(s: Seq<(Uuid, Uuid)>) -> bool {
    &&& forall|a: Uuid| (#[trigger] sent_by(s, a)).len() <= REMEMBERED_LIMIT
    &&& forall|b: Uuid| (#[trigger] received_by(s, b)).len() <= RECEIVED_LIMIT
}

/// The store of pending friend requests.
pub struct FriendRequestStore {
    pairs: Vec<(Uuid, Uuid)>,
}

impl View for FriendRequestStore {
    type V = Seq<(Uuid, Uuid)>;

    closed spec fn view(&self) -> Seq<(Uuid, Uuid)> {
        self.pairs@
    }
}

impl FriendRequestStore {
    pub open spec fn wf(&self) -> bool {
        unique_pairs(self@) && bounded(self@)
    }

    pub fn new() -> (r: FriendRequestStore)
        ensures
            r.wf(),
            r@.len() == 0,
    {
        FriendRequestStore { pairs: Vec::new() }
    }

    #[verifier::loop_isolation(false)]
    fn contains_pair(&self, from: Uuid, to: Uuid) -> (r: bool)
        ensures
            r <==> self@.contains((from, to)),
    {
        let mut k: usize = 0;
        while k < self.pairs.len()
            invariant
                k <= self@.len(),
                forall|i: int| 0 <= i < k ==> self@[i] != (from, to),
            decreases self@.len() - k,
        {
            let p = self.pairs[k];
            if p.0.raw() == from.raw() && p.1.raw() == to.raw() {
                proof {
                    assert(self@[k as int] == (from, to));
                }
                return true;
            }
            k += 1;
        }
        proof {
            if self@.contains((from, to)) {
                let w = choose|w: int| 0 <= w < self@.len() && self@[w] == (from, to);
                assert(false);
            }
        }
        false
    }

    #[verifier::loop_isolation(false)]
    fn evict_oldest_sent(&mut self, from: Uuid)
        ensures
            final(self)@ == drop_oldest_sent(old(self)@, from),
    {
        let ghost s = self@;
        let mut k: usize = 0;
        proof {
            assert(s.subrange(0, s.len() as int) =~= s);
            assert(s.subrange(0, 0) =~= Seq::<(Uuid, Uuid)>::empty());
            assert(Seq::<(Uuid, Uuid)>::empty() + drop_oldest_sent(s, from) =~= drop_oldest_sent(
                s,
                from,
            ));
        }
        while k < self.pairs.len()
            invariant
                s == self@,
                k <= s.len(),
                drop_oldest_sent(s, from) == s.subrange(0, k as int) + drop_oldest_sent(
                    s.subrange(k as int, s.len() as int),
                    from,
                ),
                forall|i: int| 0 <= i < k ==> (#[trigger] s[i]).0 != from,
            decreases s.len() - k,
        {
            let ghost tail = s.subrange(k as int, s.len() as int);
            proof {
                assert(tail[0] == s[k as int]);
                assert(tail.drop_first() =~= s.subrange(k + 1, s.len() as int));
            }
            if self.pairs[k].0.raw() == from.raw() {
                proof {
                    crate::ids::Uuid::lemma_value_eq(self.pairs@[k as int].0, from);
                    assert(drop_oldest_sent(s, from) =~= s.subrange(0, k as int) + s.subrange(
                        k + 1,
                        s.len() as int,
                    ));
                }
                self.pairs.remove(k);
                proof {
                    assert(self@ =~= s.subrange(0, k as int) + s.subrange(k + 1, s.len() as int));
                }
                return;
            }
            proof {
                crate::ids::Uuid::lemma_value_eq(self.pairs@[k as int].0, from);
                assert(s.subrange(0, k as int) + (seq![tail[0]] + drop_oldest_sent(
                    tail.drop_first(),
                    from,
                )) =~= s.subrange(0, k + 1) + drop_oldest_sent(
                    s.subrange(k + 1, s.len() as int),
                    from,
                ));
            }
            k += 1;
        }
        proof {
            assert(s.subrange(k as int, s.len() as int).len() == 0);
            assert(drop_oldest_sent(s, from) =~= s.subrange(0, k as int));
            assert(s.subrange(0, k as int) =~= s);
        }
    }

    #[verifier::loop_isolation(false)]
    fn evict_oldest_received(&mut self, to: Uuid)
        ensures
            final(self)@ == drop_oldest_received(old(self)@, to),
    {
        let ghost s = self@;
        let mut k: usize = 0;
        proof {
            assert(s.subrange(0, s.len() as int) =~= s);
            assert(s.subrange(0, 0) =~= Seq::<(Uuid, Uuid)>::empty());
            assert(Seq::<(Uuid, Uuid)>::empty() + drop_oldest_received(s, to)
                =~= drop_oldest_received(s, to));
        }
        while k < self.pairs.len()
            invariant
                s == self@,
                k <= s.len(),
                drop_oldest_received(s, to) == s.subrange(0, k as int) + drop_oldest_received(
                    s.subrange(k as int, s.len() as int),
                    to,
                ),
            decreases s.len() - k,
        {
            let ghost tail = s.subrange(k as int, s.len() as int);
            proof {
                assert(tail[0] == s[k as int]);
                assert(tail.drop_first() =~= s.subrange(k + 1, s.len() as int));
            }
            if self.pairs[k].1.raw() == to.raw() {
                proof {
                    crate::ids::Uuid::lemma_value_eq(self.pairs@[k as int].1, to);
                    assert(drop_oldest_received(s, to) =~= s.subrange(0, k as int) + s.subrange(
                        k + 1,
                        s.len() as int,
                    ));
                }
                self.pairs.remove(k);
                proof {
                    assert(self@ =~= s.subrange(0, k as int) + s.subrange(k + 1, s.len() as int));
                }
                return;
            }
            proof {
                crate::ids::Uuid::lemma_value_eq(self.pairs@[k as int].1, to);
                assert(s.subrange(0, k as int) + (seq![tail[0]] + drop_oldest_received(
                    tail.drop_first(),
                    to,
                )) =~= s.subrange(0, k + 1) + drop_oldest_received(
                    s.subrange(k + 1, s.len() as int),
                    to,
                ));
            }
            k += 1;
        }
        proof {
            assert(s.subrange(k as int, s.len() as int).len() == 0);
            assert(drop_oldest_received(s, to) =~= s.subrange(0, k as int));
            assert(s.subrange(0, k as int) =~= s);
        }
    }

    #[verifier::loop_isolation(false)]
    fn count_sent(&self, a: Uuid) -> (r: usize)
        ensures
            r == sent_by(self@, a).len(),
    {
        let ghost s = self@;
        let mut n: usize = 0;
        let mut k: usize = 0;
        proof {
            assert(s.subrange(0, s.len() as int) =~= s);
        }
        while k < self.pairs.len()
            invariant
                s == self@,
                k <= s.len(),
                n <= k,
                n + sent_by(s.subrange(k as int, s.len() as int), a).len() == sent_by(s, a).len(),
            decreases s.len() - k,
        {
            let ghost tail = s.subrange(k as int, s.len() as int);
            proof {
                assert(tail[0] == s[k as int]);
                assert(tail.drop_first() =~= s.subrange(k + 1, s.len() as int));
                crate::ids::Uuid::lemma_value_eq(self.pairs@[k as int].0, a);
            }
            if self.pairs[k].0.raw() == a.raw() {
                n += 1;
            }
            k += 1;
        }
        proof {
            assert(s.subrange(k as int, s.len() as int).len() == 0);
        }
        n
    }

    #[verifier::loop_isolation(false)]
    fn count_received(&self, b: Uuid) -> (r: usize)
        ensures
            r == received_by(self@, b).len(),
    {
        let ghost s = self@;
        let mut n: usize = 0;
        let mut k: usize = 0;
        proof {
            assert(s.subrange(0, s.len() as int) =~= s);
        }
        while k < self.pairs.len()
            invariant
                s == self@,
                k <= s.len(),
                n <= k,
                n + received_by(s.subrange(k as int, s.len() as int), b).len() == received_by(
                    s,
                    b,
                ).len(),
            decreases s.len() - k,
        {
            let ghost tail = s.subrange(k as int, s.len() as int);
            proof {
                assert(tail[0] == s[k as int]);
                assert(tail.drop_first() =~= s.subrange(k + 1, s.len() as int));
                crate::ids::Uuid::lemma_value_eq(self.pairs@[k as int].1, b);
            }
            if self.pairs[k].1.raw() == b.raw() {
                n += 1;
            }
            k += 1;
        }
        proof {
            assert(s.subrange(k as int, s.len() as int).len() == 0);
        }
        n
    }

    /// Enqueues a request from `from` to `to`: the pair is recorded once,
    /// and each overfull side evicts its oldest pair.
    #[verifier::loop_isolation(false)]
    pub fn enqueue(&mut self, from: Uuid, to: Uuid)
        requires
            old(self).wf(),
        ensures
            final(self).wf(),
            final(self)@ == enqueue_spec(old(self)@, from, to),
            final(self)@.contains((from, to)),
    {
        let ghost s = self@;
        let ghost p = (from, to);
        if self.contains_pair(from, to) {
            return;
        }
        self.pairs.push((from, to));
        let ghost s1 = self@;
        let ghost q1 = s;
        proof {
            assert(s1 == s.push(p));
            lemma_push_buckets(s, p);
            lemma_push_unique(s, p);
        }
        if self.count_sent(from) > REMEMBERED_LIMIT {
            proof {
                lemma_drop_sent_effect(s1, from);
                lemma_drop_sent_push(q1, p, from);
            }
            self.evict_oldest_sent(from);
        }
        let ghost s2 = self@;
        let ghost q2 = if sent_by(s1, from).len() > REMEMBERED_LIMIT {
            drop_oldest_sent(q1, from)
        } else {
            q1
        };
        proof {
            assert(s2 == q2.push(p));
            lemma_push_buckets(q2, p);
        }
        if self.count_received(to) > RECEIVED_LIMIT {
            proof {
                lemma_drop_received_effect(s2, to);
                lemma_drop_received_push(q2, p, to);
            }
            self.evict_oldest_received(to);
        }
        proof {
            let s3 = final(self)@;
            let q3 = if received_by(s2, to).len() > RECEIVED_LIMIT {
                drop_oldest_received(q2, to)
            } else {
                q2
            };
            assert(s3 == q3.push(p));
            assert(s3.last() == p);
            assert(s3.contains(p));
        }
    }

    /// Takes every request waiting for `user` out of the store and returns
    /// the senders, oldest first.
    #[verifier::loop_isolation(false)]
    pub fn drain_received(&mut self, user: Uuid) -> (r: Vec<Uuid>)
        requires
            old(self).wf(),
        ensures
            final(self).wf(),
            r@ == received_by(old(self)@, user),
            final(self)@ == remove_recipient(old(self)@, user),
    {
        let ghost s = self@;
        let mut senders: Vec<Uuid> = Vec::new();
        let mut kept: Vec<(Uuid, Uuid)> = Vec::new();
        let mut k: usize = 0;
        proof {
            assert(s.subrange(0, 0) =~= Seq::<(Uuid, Uuid)>::empty());
            assert(s.subrange(0, s.len() as int) =~= s);
        }
        while k < self.pairs.len()
            invariant
                s == self.pairs@,
                k <= s.len(),
                senders@ + received_by(s.subrange(k as int, s.len() as int), user) =~= received_by(
                    s,
                    user,
                ),
                kept@ + remove_recipient(s.subrange(k as int, s.len() as int), user) =~= remove_recipient(
                    s,
                    user,
                ),
            decreases s.len() - k,
        {
            let ghost tail = s.subrange(k as int, s.len() as int);
            proof {
                assert(tail[0] == s[k as int]);
                assert(tail.drop_first() =~= s.subrange(k + 1, s.len() as int));
                crate::ids::Uuid::lemma_value_eq(self.pairs@[k as int].1, user);
            }
            let p = self.pairs[k];
            if p.1.raw() == user.raw() {
                senders.push(p.0);
            } else {
                kept.push(p);
            }
            proof {
                assert(senders@ + received_by(s.subrange(k + 1, s.len() as int), user)
                    =~= received_by(s, user));
                assert(kept@ + remove_recipient(s.subrange(k + 1, s.len() as int), user)
                    =~= remove_recipient(s, user));
            }
            k += 1;
        }
        proof {
            assert(s.subrange(k as int, s.len() as int).len() == 0);
            assert(senders@ =~= received_by(s, user));
            assert(kept@ =~= remove_recipient(s, user));
        }
        self.pairs = kept;
        proof {
            lemma_remove_recipient_wf(s, user);
        }
        senders
    }
}

/// Appending a pair extends its own sender bucket and no other.
proof fn lemma_sent_push_one(s: Seq<(Uuid, Uuid)>, p: (Uuid, Uuid), a: Uuid)
    ensures
        sent_by(s.push(p), a) == if p.0 == a {
            sent_by(s, a).push(p.1)
        } else {
            sent_by(s, a)
        },
    decreases s.len(),
{
    if s.len() == 0 {
        assert(s.push(p)[0] == p);
        assert(s.push(p).drop_first() =~= Seq::<(Uuid, Uuid)>::empty());
        assert(s =~= Seq::<(Uuid, Uuid)>::empty());
        if p.0 == a {
            assert(sent_by(s.push(p), a) =~= sent_by(s, a).push(p.1));
        } else {
            assert(sent_by(s.push(p), a) =~= sent_by(s, a));
        }
    } else {
        lemma_sent_push_one(s.drop_first(), p, a);
        assert(s.push(p)[0] == s[0]);
        assert(s.push(p).drop_first() =~= s.drop_first().push(p));
        if s[0].0 == a {
            if p.0 == a {
                assert(seq![s[0].1] + sent_by(s.drop_first(), a).push(p.1) =~= (seq![s[0].1]
                    + sent_by(s.drop_first(), a)).push(p.1));
            }
        }
    }
}

/// Appending a pair extends its own recipient bucket and no other.
proof fn lemma_recv_push_one(s: Seq<(Uuid, Uuid)>, p: (Uuid, Uuid), b: Uuid)
    ensures
        received_by(s.push(p), b) == if p.1 == b {
            received_by(s, b).push(p.0)
        } else {
            received_by(s, b)
        },
    decreases s.len(),
{
    if s.len() == 0 {
        assert(s.push(p)[0] == p);
        assert(s.push(p).drop_first() =~= Seq::<(Uuid, Uuid)>::empty());
        assert(s =~= Seq::<(Uuid, Uuid)>::empty());
        if p.1 == b {
            assert(received_by(s.push(p), b) =~= received_by(s, b).push(p.0));
        } else {
            assert(received_by(s.push(p), b) =~= received_by(s, b));
        }
    } else {
        lemma_recv_push_one(s.drop_first(), p, b);
        assert(s.push(p)[0] == s[0]);
        assert(s.push(p).drop_first() =~= s.drop_first().push(p));
        if s[0].1 == b {
            if p.1 == b {
                assert(seq![s[0].0] + received_by(s.drop_first(), b).push(p.0) =~= (seq![s[0].0]
                    + received_by(s.drop_first(), b)).push(p.0));
            }
        }
    }
}

/// Appending a pair extends exactly its own sender and recipient buckets.
proof fn lemma_push_buckets(s: Seq<(Uuid, Uuid)>, p: (Uuid, Uuid))
    ensures
        forall|a: Uuid| #[trigger] sent_by(s.push(p), a) == if p.0 == a {
            sent_by(s, a).push(p.1)
        } else {
            sent_by(s, a)
        },
        forall|b: Uuid| #[trigger] received_by(s.push(p), b) == if p.1 == b {
            received_by(s, b).push(p.0)
        } else {
            received_by(s, b)
        },
{
    assert forall|a: Uuid| #[trigger] sent_by(s.push(p), a) == (if p.0 == a {
        sent_by(s, a).push(p.1)
    } else {
        sent_by(s, a)
    }) by {
        lemma_sent_push_one(s, p, a);
    }
    assert forall|b: Uuid| #[trigger] received_by(s.push(p), b) == (if p.1 == b {
        received_by(s, b).push(p.0)
    } else {
        received_by(s, b)
    }) by {
        lemma_recv_push_one(s, p, b);
    }
}

/// Appending an absent pair keeps the pairs unique.
proof fn lemma_push_unique(s: Seq<(Uuid, Uuid)>, p: (Uuid, Uuid))
    requires
        unique_pairs(s),
        !s.contains(p),
    ensures
        unique_pairs(s.push(p)),
{
    assert forall|i: int, j: int|
        0 <= i < j < s.push(p).len() implies s.push(p)[i] != s.push(p)[j] by {
        if j == s.len() {
            assert(s[i] == s.push(p)[i]);
        }
    }
}

/// Evicting a sender's oldest pair shortens that bucket by one, leaves the
/// other senders' buckets alone, and never grows a recipient bucket.
proof fn lemma_drop_sent_effect(s: Seq<(Uuid, Uuid)>, a: Uuid)
    requires
        sent_by(s, a).len() > 0,
    ensures
        sent_by(drop_oldest_sent(s, a), a) == sent_by(s, a).drop_first(),
        forall|c: Uuid| c != a ==> #[trigger] sent_by(drop_oldest_sent(s, a), c) == sent_by(s, c),
        forall|c: Uuid|
            (#[trigger] received_by(drop_oldest_sent(s, a), c)).len() <= received_by(s, c).len(),
        forall|q: (Uuid, Uuid)| #[trigger] drop_oldest_sent(s, a).contains(q) ==> s.contains(q),
        unique_pairs(s) ==> unique_pairs(drop_oldest_sent(s, a)),
    decreases s.len(),
{
    let d = drop_oldest_sent(s, a);
    let t = s.drop_first();
    if s[0].0 == a {
        assert(d == t);
        assert(sent_by(d, a) =~= sent_by(s, a).drop_first());
        assert forall|q: (Uuid, Uuid)| #[trigger] d.contains(q) implies s.contains(q) by {
            let w = choose|w: int| 0 <= w < d.len() && d[w] == q;
            assert(s[w + 1] == q);
        }
        if unique_pairs(s) {
            assert forall|i: int, j: int| 0 <= i < j < d.len() implies d[i] != d[j] by {
                assert(d[i] == s[i + 1] && d[j] == s[j + 1]);
            }
        }
        assert forall|c: Uuid|
            (#[trigger] received_by(d, c)).len() <= received_by(s, c).len() by {
            if s[0].1 == c {
                assert(received_by(s, c) == seq![s[0].0] + received_by(t, c));
            } else {
                assert(received_by(s, c) == received_by(t, c));
            }
        }
    } else {
        lemma_drop_sent_effect(t, a);
        assert(d == seq![s[0]] + drop_oldest_sent(t, a));
        assert(d[0] == s[0]);
        assert(d.drop_first() =~= drop_oldest_sent(t, a));
        assert(sent_by(d, a) =~= sent_by(s, a).drop_first()) by {
            assert(sent_by(d, a) == sent_by(drop_oldest_sent(t, a), a));
            assert(sent_by(s, a) == sent_by(t, a));
        }
        assert forall|c: Uuid| c != a implies #[trigger] sent_by(d, c) == sent_by(s, c) by {
            if s[0].0 == c {
                assert(sent_by(d, c) == seq![s[0].1] + sent_by(drop_oldest_sent(t, a), c));
                assert(sent_by(s, c) == seq![s[0].1] + sent_by(t, c));
            } else {
                assert(sent_by(d, c) == sent_by(drop_oldest_sent(t, a), c));
                assert(sent_by(s, c) == sent_by(t, c));
            }
        }
        assert forall|c: Uuid|
            (#[trigger] received_by(d, c)).len() <= received_by(s, c).len() by {
            if s[0].1 == c {
                assert(received_by(d, c) == seq![s[0].0] + received_by(drop_oldest_sent(t, a), c));
                assert(received_by(s, c) == seq![s[0].0] + received_by(t, c));
            } else {
                assert(received_by(d, c) == received_by(drop_oldest_sent(t, a), c));
                assert(received_by(s, c) == received_by(t, c));
            }
        }
        assert forall|q: (Uuid, Uuid)| #[trigger] d.contains(q) implies s.contains(q) by {
            let w = choose|w: int| 0 <= w < d.len() && d[w] == q;
            if w == 0 {
                assert(s[0] == q);
            } else {
                assert(drop_oldest_sent(t, a)[w - 1] == q);
                assert(drop_oldest_sent(t, a).contains(q));
                assert(t.contains(q));
                let v = choose|v: int| 0 <= v < t.len() && t[v] == q;
                assert(s[v + 1] == q);
            }
        }
        if unique_pairs(s) {
            assert(unique_pairs(t)) by {
                assert forall|i: int, j: int| 0 <= i < j < t.len() implies t[i] != t[j] by {
                    assert(t[i] == s[i + 1] && t[j] == s[j + 1]);
                }
            }
            assert forall|i: int, j: int| 0 <= i < j < d.len() implies d[i] != d[j] by {
                if i == 0 {
                    assert(d[j] == drop_oldest_sent(t, a)[j - 1]);
                    assert(drop_oldest_sent(t, a).contains(d[j]));
                    assert(t.contains(d[j]));
                    let v = choose|v: int| 0 <= v < t.len() && t[v] == d[j];
                    assert(s[v + 1] == d[j]);
                } else {
                    assert(d[i] == drop_oldest_sent(t, a)[i - 1]);
                    assert(d[j] == drop_oldest_sent(t, a)[j - 1]);
                }
            }
        }
    }
}

/// The mirror of `lemma_drop_sent_effect` for a recipient's oldest pair.
proof fn lemma_drop_received_effect(s: Seq<(Uuid, Uuid)>, b: Uuid)
    requires
        received_by(s, b).len() > 0,
    ensures
        received_by(drop_oldest_received(s, b), b) == received_by(s, b).drop_first(),
        forall|c: Uuid|
            c != b ==> #[trigger] received_by(drop_oldest_received(s, b), c) == received_by(s, c),
        forall|c: Uuid|
            (#[trigger] sent_by(drop_oldest_received(s, b), c)).len() <= sent_by(s, c).len(),
        forall|q: (Uuid, Uuid)| #[trigger] drop_oldest_received(s, b).contains(q) ==> s.contains(
            q,
        ),
        unique_pairs(s) ==> unique_pairs(drop_oldest_received(s, b)),
    decreases s.len(),
{
    let d = drop_oldest_received(s, b);
    let t = s.drop_first();
    if s[0].1 == b {
        assert(d == t);
        assert(received_by(d, b) =~= received_by(s, b).drop_first());
        assert forall|q: (Uuid, Uuid)| #[trigger] d.contains(q) implies s.contains(q) by {
            let w = choose|w: int| 0 <= w < d.len() && d[w] == q;
            assert(s[w + 1] == q);
        }
        if unique_pairs(s) {
            assert forall|i: int, j: int| 0 <= i < j < d.len() implies d[i] != d[j] by {
                assert(d[i] == s[i + 1] && d[j] == s[j + 1]);
            }
        }
        assert forall|c: Uuid| (#[trigger] sent_by(d, c)).len() <= sent_by(s, c).len() by {
            if s[0].0 == c {
                assert(sent_by(s, c) == seq![s[0].1] + sent_by(t, c));
            } else {
                assert(sent_by(s, c) == sent_by(t, c));
            }
        }
    } else {
        lemma_drop_received_effect(t, b);
        assert(d == seq![s[0]] + drop_oldest_received(t, b));
        assert(d[0] == s[0]);
        assert(d.drop_first() =~= drop_oldest_received(t, b));
        assert(received_by(d, b) =~= received_by(s, b).drop_first()) by {
            assert(received_by(d, b) == received_by(drop_oldest_received(t, b), b));
            assert(received_by(s, b) == received_by(t, b));
        }
        assert forall|c: Uuid|
            c != b implies #[trigger] received_by(d, c) == received_by(s, c) by {
            if s[0].1 == c {
                assert(received_by(d, c) == seq![s[0].0] + received_by(
                    drop_oldest_received(t, b),
                    c,
                ));
                assert(received_by(s, c) == seq![s[0].0] + received_by(t, c));
            } else {
                assert(received_by(d, c) == received_by(drop_oldest_received(t, b), c));
                assert(received_by(s, c) == received_by(t, c));
            }
        }
        assert forall|c: Uuid| (#[trigger] sent_by(d, c)).len() <= sent_by(s, c).len() by {
            if s[0].0 == c {
                assert(sent_by(d, c) == seq![s[0].1] + sent_by(drop_oldest_received(t, b), c));
                assert(sent_by(s, c) == seq![s[0].1] + sent_by(t, c));
            } else {
                assert(sent_by(d, c) == sent_by(drop_oldest_received(t, b), c));
                assert(sent_by(s, c) == sent_by(t, c));
            }
        }
        assert forall|q: (Uuid, Uuid)| #[trigger] d.contains(q) implies s.contains(q) by {
            let w = choose|w: int| 0 <= w < d.len() && d[w] == q;
            if w == 0 {
                assert(s[0] == q);
            } else {
                assert(drop_oldest_received(t, b)[w - 1] == q);
                assert(drop_oldest_received(t, b).contains(q));
                assert(t.contains(q));
                let v = choose|v: int| 0 <= v < t.len() && t[v] == q;
                assert(s[v + 1] == q);
            }
        }
        if unique_pairs(s) {
            assert(unique_pairs(t)) by {
                assert forall|i: int, j: int| 0 <= i < j < t.len() implies t[i] != t[j] by {
                    assert(t[i] == s[i + 1] && t[j] == s[j + 1]);
                }
            }
            assert forall|i: int, j: int| 0 <= i < j < d.len() implies d[i] != d[j] by {
                if i == 0 {
                    assert(d[j] == drop_oldest_received(t, b)[j - 1]);
                    assert(drop_oldest_received(t, b).contains(d[j]));
                    assert(t.contains(d[j]));
                    let v = choose|v: int| 0 <= v < t.len() && t[v] == d[j];
                    assert(s[v + 1] == d[j]);
                } else {
                    assert(d[i] == drop_oldest_received(t, b)[i - 1]);
                    assert(d[j] == drop_oldest_received(t, b)[j - 1]);
                }
            }
        }
    }
}

/// Removing every pair of a recipient keeps the relation well formed and
/// never grows a bucket.
proof fn lemma_remove_recipient_wf(s: Seq<(Uuid, Uuid)>, user: Uuid)
    requires
        unique_pairs(s),
    ensures
        unique_pairs(remove_recipient(s, user)),
        forall|a: Uuid|
            (#[trigger] sent_by(remove_recipient(s, user), a)).len() <= sent_by(s, a).len(),
        forall|b: Uuid|
            (#[trigger] received_by(remove_recipient(s, user), b)).len() <= received_by(
                s,
                b,
            ).len(),
    decreases s.len(),
{
    let d = remove_recipient(s, user);
    if s.len() == 0 {
    } else {
        let t = s.drop_first();
        assert(unique_pairs(t)) by {
            assert forall|i: int, j: int| 0 <= i < j < t.len() implies t[i] != t[j] by {
                assert(t[i] == s[i + 1] && t[j] == s[j + 1]);
            }
        }
        lemma_remove_recipient_wf(t, user);
        if s[0].1 == user {
            assert(d == remove_recipient(t, user));
            assert forall|a: Uuid|
                (#[trigger] sent_by(d, a)).len() <= sent_by(s, a).len() by {
                assert(sent_by(s, a).len() == (if s[0].0 == a {
                    1int
                } else {
                    0int
                }) + sent_by(t, a).len());
            }
            assert forall|b: Uuid|
                (#[trigger] received_by(d, b)).len() <= received_by(s, b).len() by {
                assert(received_by(s, b).len() == (if s[0].1 == b {
                    1int
                } else {
                    0int
                }) + received_by(t, b).len());
            }
        } else {
            assert(d == seq![s[0]] + remove_recipient(t, user));
            assert(d[0] == s[0]);
            assert(d.drop_first() =~= remove_recipient(t, user));
            lemma_remove_recipient_subset(t, user);
            assert forall|i: int, j: int| 0 <= i < j < d.len() implies d[i] != d[j] by {
                if i == 0 {
                    assert(d[j] == remove_recipient(t, user)[j - 1]);
                    assert(remove_recipient(t, user).contains(d[j]));
                    let v = choose|v: int| 0 <= v < t.len() && t[v] == d[j];
                    assert(s[v + 1] == d[j]);
                } else {
                    assert(d[i] == remove_recipient(t, user)[i - 1]);
                    assert(d[j] == remove_recipient(t, user)[j - 1]);
                }
            }
            assert forall|a: Uuid|
                (#[trigger] sent_by(d, a)).len() <= sent_by(s, a).len() by {
                assert(sent_by(d, a).len() == (if s[0].0 == a {
                    1int
                } else {
                    0int
                }) + sent_by(remove_recipient(t, user), a).len());
                assert(sent_by(s, a).len() == (if s[0].0 == a {
                    1int
                } else {
                    0int
                }) + sent_by(t, a).len());
            }
            assert forall|b: Uuid|
                (#[trigger] received_by(d, b)).len() <= received_by(s, b).len() by {
                assert(received_by(d, b).len() == (if s[0].1 == b {
                    1int
                } else {
                    0int
                }) + received_by(remove_recipient(t, user), b).len());
                assert(received_by(s, b).len() == (if s[0].1 == b {
                    1int
                } else {
                    0int
                }) + received_by(t, b).len());
            }
        }
    }
}

/// Every survivor of the removal was in the relation.
proof fn lemma_remove_recipient_subset(s: Seq<(Uuid, Uuid)>, user: Uuid)
    ensures
        forall|i: int|
            0 <= i < remove_recipient(s, user).len() ==> exists|w: int|
                0 <= w < s.len() && s[w] == (#[trigger] remove_recipient(s, user)[i]),
    decreases s.len(),
{
    if s.len() > 0 {
        let t = s.drop_first();
        lemma_remove_recipient_subset(t, user);
        assert forall|i: int|
            0 <= i < remove_recipient(s, user).len() implies exists|w: int|
                0 <= w < s.len() && s[w] == (#[trigger] remove_recipient(s, user)[i]) by {
            if s[0].1 == user {
                assert(remove_recipient(s, user)[i] == remove_recipient(t, user)[i]);
                let v = choose|v: int| 0 <= v < t.len() && t[v] == remove_recipient(t, user)[i];
                assert(s[v + 1] == t[v]);
            } else {
                if i == 0 {
                    assert(s[0] == remove_recipient(s, user)[0]);
                } else {
                    assert(remove_recipient(s, user)[i] == remove_recipient(t, user)[i - 1]);
                    let v = choose|v: int|
                        0 <= v < t.len() && t[v] == remove_recipient(t, user)[i - 1];
                    assert(s[v + 1] == t[v]);
                }
            }
        }
    }
}

/// When an older pair of the sender exists, appending a pair and evicting
/// the sender's oldest commute.
proof fn lemma_drop_sent_push(s: Seq<(Uuid, Uuid)>, p: (Uuid, Uuid), a: Uuid)
    requires
        sent_by(s, a).len() > 0,
    ensures
        drop_oldest_sent(s.push(p), a) == drop_oldest_sent(s, a).push(p),
    decreases s.len(),
{
    assert(s.push(p)[0] == s[0]);
    if s[0].0 == a {
        assert(s.push(p).drop_first() =~= s.drop_first().push(p));
    } else {
        lemma_drop_sent_push(s.drop_first(), p, a);
        assert(s.push(p).drop_first() =~= s.drop_first().push(p));
        assert(seq![s[0]] + drop_oldest_sent(s.drop_first(), a).push(p) =~= (seq![s[0]]
            + drop_oldest_sent(s.drop_first(), a)).push(p));
    }
}

/// When an older pair of the recipient exists, appending a pair and
/// evicting the recipient's oldest commute.
proof fn lemma_drop_received_push(s: Seq<(Uuid, Uuid)>, p: (Uuid, Uuid), b: Uuid)
    requires
        received_by(s, b).len() > 0,
    ensures
        drop_oldest_received(s.push(p), b) == drop_oldest_received(s, b).push(p),
    decreases s.len(),
{
    assert(s.push(p)[0] == s[0]);
    if s[0].1 == b {
        assert(s.push(p).drop_first() =~= s.drop_first().push(p));
    } else {
        lemma_drop_received_push(s.drop_first(), p, b);
        assert(s.push(p).drop_first() =~= s.drop_first().push(p));
        assert(seq![s[0]] + drop_oldest_received(s.drop_first(), b).push(p) =~= (seq![s[0]]
            + drop_oldest_received(s.drop_first(), b)).push(p));
    }
}

/// The two sides of the store mirror each other: a recipient stands in a
/// sender's remembered list exactly when the sender stands in the
/// recipient's received list — both say the pair is in the relation.
pub proof fn lemma_request_mirror(s: Seq<(Uuid, Uuid)>, a: Uuid, b: Uuid)
    ensures
        sent_by(s, a).contains(b) <==> s.contains((a, b)),
        received_by(s, b).contains(a) <==> s.contains((a, b)),
    decreases s.len(),
{
    if s.len() > 0 {
        let t = s.drop_first();
        lemma_request_mirror(t, a, b);
        assert(sent_by(s, a).contains(b) <==> s.contains((a, b))) by {
            if sent_by(s, a).contains(b) {
                if s[0].0 == a {
                    let w = choose|w: int|
                        0 <= w < sent_by(s, a).len() && sent_by(s, a)[w] == b;
                    if w == 0 && s[0].1 == b {
                        assert(s[0] == (a, b));
                    } else {
                        assert(sent_by(t, a)[w - 1] == b || (w == 0 && s[0].1 == b)) by {
                            if w > 0 {
                                assert(sent_by(s, a)[w] == sent_by(t, a)[w - 1]);
                            }
                        }
                        if w > 0 {
                            let v = choose|v: int| 0 <= v < t.len() && t[v] == (a, b);
                            assert(s[v + 1] == (a, b));
                        } else {
                            assert(s[0] == (a, b));
                        }
                    }
                } else {
                    let v = choose|v: int| 0 <= v < t.len() && t[v] == (a, b);
                    assert(s[v + 1] == (a, b));
                }
            }
            if s.contains((a, b)) {
                let w = choose|w: int| 0 <= w < s.len() && s[w] == (a, b);
                if w == 0 {
                    assert(sent_by(s, a)[0] == b);
                } else {
                    assert(t[w - 1] == (a, b));
                    assert(t.contains((a, b)));
                    let v = choose|v: int|
                        0 <= v < sent_by(t, a).len() && sent_by(t, a)[v] == b;
                    if s[0].0 == a {
                        assert(sent_by(s, a)[v + 1] == b);
                    } else {
                        assert(sent_by(s, a)[v] == b);
                    }
                }
            }
        }
        assert(received_by(s, b).contains(a) <==> s.contains((a, b))) by {
            if received_by(s, b).contains(a) {
                if s[0].1 == b {
                    let w = choose|w: int|
                        0 <= w < received_by(s, b).len() && received_by(s, b)[w] == a;
                    if w == 0 && s[0].0 == a {
                        assert(s[0] == (a, b));
                    } else {
                        if w > 0 {
                            assert(received_by(s, b)[w] == received_by(t, b)[w - 1]);
                            let v = choose|v: int| 0 <= v < t.len() && t[v] == (a, b);
                            assert(s[v + 1] == (a, b));
                        } else {
                            assert(s[0] == (a, b));
                        }
                    }
                } else {
                    let v = choose|v: int| 0 <= v < t.len() && t[v] == (a, b);
                    assert(s[v + 1] == (a, b));
                }
            }
            if s.contains((a, b)) {
                let w = choose|w: int| 0 <= w < s.len() && s[w] == (a, b);
                if w == 0 {
                    assert(received_by(s, b)[0] == a);
                } else {
                    assert(t[w - 1] == (a, b));
                    assert(t.contains((a, b)));
                    let v = choose|v: int|
                        0 <= v < received_by(t, b).len() && received_by(t, b)[v] == a;
                    if s[0].1 == b {
                        assert(received_by(s, b)[v + 1] == a);
                    } else {
                        assert(received_by(s, b)[v] == a);
                    }
                }
            }
        }
    }
}

} // verus!
