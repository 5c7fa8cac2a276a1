//! One-shot port lookups for UDP hole punching: a client announces a
//! lookup identifier; a datagram carrying it reveals the client's public
//! endpoint. Pending lookups expire after a fixed lifetime.

use vstd::prelude::*;
use crate::ids::{ConnectionId, Uuid};

verus! {

/// How long a pending lookup lives, in milliseconds.
pub const PORT_LOOKUP_EXPIRY_MS: u64 = 10000;

/// A pending lookup: its identifier and the connection that asked.
#[derive(Debug, Clone, Copy, PartialEq, Eq, Structural)]
pub struct ActivePortLookup {
    pub lookup_id: Uuid,
    pub source_client: ConnectionId,
}

/// The entries without the one of the given lookup identifier.
pub open spec fn remove_lookup(s: Seq<(u64, ActivePortLookup)>, id: Uuid) -> Seq<
    (u64, ActivePortLookup),
>
    decreases s.len(),
{
    if s.len() == 0 {
        s
    } else if s[0].1.lookup_id == id {
        remove_lookup(s.drop_first(), id)
    } else {
        seq![s[0]] + remove_lookup(s.drop_first(), id)
    }
}

/// The entry of the given lookup identifier, with its expiry instant.
pub open spec fn find_lookup(s: Seq<(u64, ActivePortLookup)>, id: Uuid) -> Option<
    (u64, ActivePortLookup),
>
    decreases s.len(),
{
    if s.len() == 0 {
        None
    } else if s[0].1.lookup_id == id {
        Some(s[0])
    } else {
        find_lookup(s.drop_first(), id)
    }
}

/// The entries that have expired by `now`, in arrival order.
pub open spec fn expired_lookups(s: Seq<(u64, ActivePortLookup)>, now: u64) -> Seq<
    ActivePortLookup,
>
    decreases s.len(),
{
    if s.len() == 0 {
        seq![]
    } else if now > s[0].0 {
        seq![s[0].1] + expired_lookups(s.drop_first(), now)
    } else {
        expired_lookups(s.drop_first(), now)
    }
}

/// The entries that remain after the expired ones leave.
pub open spec fn live_lookups(s: Seq<(u64, ActivePortLookup)>, now: u64) -> Seq<
    (u64, ActivePortLookup),
>
    decreases s.len(),
{
    if s.len() == 0 {
        s
    } else if now > s[0].0 {
        live_lookups(s.drop_first(), now)
    } else {
        seq![s[0]] + live_lookups(s.drop_first(), now)
    }
}

/// The pending port lookups, each with its expiry instant.
pub struct PortLookups {
    entries: Vec<(u64, ActivePortLookup)>,
}

impl View for PortLookups {
    type V = Seq<(u64, ActivePortLookup)>;

    closed spec fn view(&self) -> Seq<(u64, ActivePortLookup)> {
        self.entries@
    }
}

impl PortLookups {
    pub fn new() -> (r: PortLookups)
        ensures
            r@.len() == 0,
    {
        PortLookups { entries: Vec::new() }
    }

    /// Records a lookup for the asking connection, to expire
    /// `PORT_LOOKUP_EXPIRY_MS` after `now_ms`. An older entry of the same
    /// identifier is replaced.
    pub fn begin(&mut self, lookup_id: Uuid, source_client: ConnectionId, now_ms: u64)
        requires
            now_ms + PORT_LOOKUP_EXPIRY_MS <= u64::MAX,
        ensures
            final(self)@ == remove_lookup(old(self)@, lookup_id).push(
                ((now_ms + PORT_LOOKUP_EXPIRY_MS) as u64, ActivePortLookup {
                    lookup_id,
                    source_client,
                }),
            ),
    {
        self.remove_entry(lookup_id);
        self.entries.push(
            (now_ms + PORT_LOOKUP_EXPIRY_MS, ActivePortLookup { lookup_id, source_client }),
        );
    }

    #[verifier::loop_isolation(false)]
    fn remove_entry(&mut self, lookup_id: Uuid)
        ensures
            final(self)@ == remove_lookup(old(self)@, lookup_id),
    {
        let ghost s = self@;
        let mut kept: Vec<(u64, ActivePortLookup)> = Vec::new();
        let mut k: usize = 0;
        proof {
            assert(s.subrange(0, s.len() as int) =~= s);
        }
        while k < self.entries.len()
            invariant
                s == self.entries@,
                k <= s.len(),
                kept@ + remove_lookup(s.subrange(k as int, s.len() as int), lookup_id)
                    =~= remove_lookup(s, lookup_id),
            decreases s.len() - k,
        {
            let ghost tail = s.subrange(k as int, s.len() as int);
            proof {
                assert(tail[0] == s[k as int]);
                assert(tail.drop_first() =~= s.subrange(k + 1, s.len() as int));
                crate::ids::Uuid::lemma_value_eq(self.entries@[k as int].1.lookup_id, lookup_id);
            }
            let e = self.entries[k];
            if e.1.lookup_id.raw() != lookup_id.raw() {
                kept.push(e);
            }
            k += 1;
        }
        proof {
            assert(s.subrange(k as int, s.len() as int).len() == 0);
            assert(kept@ =~= remove_lookup(s, lookup_id));
        }
        self.entries = kept;
    }

    /// Consumes the pending lookup a datagram matched: the entry must
    /// exist and must not have expired, else nothing happens.
    pub fn consume(&mut self, lookup_id: Uuid, now_ms: u64) -> (r: Option<ActivePortLookup>)
        ensures
            ({
                match find_lookup(old(self)@, lookup_id) {
                    Some((expiry, lookup)) => if now_ms <= expiry {
                        r == Some(lookup) && final(self)@ == remove_lookup(old(self)@, lookup_id)
                    } else {
                        r is None && final(self)@ == old(self)@
                    },
                    None => r is None && final(self)@ == old(self)@,
                }
            }),
    {
        match self.find(lookup_id) {
            Some((expiry, lookup)) => {
                if now_ms <= expiry {
                    self.remove_entry(lookup_id);
                    Some(lookup)
                } else {
                    None
                }
            },
            None => None,
        }
    }

    #[verifier::loop_isolation(false)]
    fn find(&self, lookup_id: Uuid) -> (r: Option<(u64, ActivePortLookup)>)
        ensures
            r == find_lookup(self@, lookup_id),
    {
        let ghost s = self@;
        let mut k: usize = 0;
        proof {
            assert(s.subrange(0, s.len() as int) =~= s);
        }
        while k < self.entries.len()
            invariant
                k <= s.len(),
                find_lookup(s, lookup_id) == find_lookup(
                    s.subrange(k as int, s.len() as int),
                    lookup_id,
                ),
            decreases s.len() - k,
        {
            let ghost tail = s.subrange(k as int, s.len() as int);
            proof {
                assert(tail[0] == s[k as int]);
                assert(tail.drop_first() =~= s.subrange(k + 1, s.len() as int));
                crate::ids::Uuid::lemma_value_eq(self.entries@[k as int].1.lookup_id, lookup_id);
            }
            let e = self.entries[k];
            if e.1.lookup_id.raw() == lookup_id.raw() {
                return Some(e);
            }
            k += 1;
        }
        proof {
            assert(s.subrange(k as int, s.len() as int).len() == 0);
        }
        None
    }

    /// Sweeps out the expired lookups and returns them, in arrival order.
    #[verifier::loop_isolation(false)]
    pub fn expire(&mut self, now_ms: u64) -> (r: Vec<ActivePortLookup>)
        ensures
            r@ == expired_lookups(old(self)@, now_ms),
            final(self)@ == live_lookups(old(self)@, now_ms),
    {
        let ghost s = self@;
        let mut expired: Vec<ActivePortLookup> = Vec::new();
        let mut kept: Vec<(u64, ActivePortLookup)> = Vec::new();
        let mut k: usize = 0;
        proof {
            assert(s.subrange(0, s.len() as int) =~= s);
        }
        while k < self.entries.len()
            invariant
                s == self.entries@,
                k <= s.len(),
                expired@ + expired_lookups(s.subrange(k as int, s.len() as int), now_ms)
                    =~= expired_lookups(s, now_ms),
                kept@ + live_lookups(s.subrange(k as int, s.len() as int), now_ms) =~= live_lookups(
                    s,
                    now_ms,
                ),
            decreases s.len() - k,
        {
            let ghost tail = s.subrange(k as int, s.len() as int);
            proof {
                assert(tail[0] == s[k as int]);
                assert(tail.drop_first() =~= s.subrange(k + 1, s.len() as int));
            }
            let e = self.entries[k];
            if now_ms > e.0 {
                expired.push(e.1);
            } else {
                kept.push(e);
            }
            proof {
                assert(expired@ + expired_lookups(s.subrange(k + 1, s.len() as int), now_ms)
                    =~= expired_lookups(s, now_ms));
                assert(kept@ + live_lookups(s.subrange(k + 1, s.len() as int), now_ms)
                    =~= live_lookups(s, now_ms));
            }
            k += 1;
        }
        proof {
            assert(s.subrange(k as int, s.len() as int).len() == 0);
            assert(expired@ =~= expired_lookups(s, now_ms));
            assert(kept@ =~= live_lookups(s, now_ms));
        }
        self.entries = kept;
        expired
    }
}

} // verus!
