//! The live-connection registry: every connection is findable by its
//! identifier, and the connections of one user are listed in the order they
//! arrived.

use vstd::prelude::*;
use crate::country::CountryCode;
use crate::ids::{ConnectionId, SecurityLevel, Uuid};
use crate::s2c::IpAddrBytes;
use crate::versions::NEW_AUTH_PROTOCOL;

verus! {

/// An out-of-process relay that clients may be pointed at.
#[derive(Debug)]
pub struct ExternalProxy {
    pub addr: Option<String>,
    pub port: u16,
    pub base_addr: Option<String>,
    pub mc_port: u16,
}

/// The mathematical form of an external proxy record.
pub struct ProxyModel {
    pub addr: Option<Seq<char>>,
    pub port: u16,
    pub base_addr: Option<Seq<char>>,
    pub mc_port: u16,
}

impl View for ExternalProxy {
    type V = ProxyModel;

    open spec fn view(&self) -> ProxyModel {
        ProxyModel {
            addr: match &self.addr {
                Some(a) => Some(a@),
                None => None,
            },
            port: self.port,
            base_addr: match &self.base_addr {
                Some(a) => Some(a@),
                None => None,
            },
            mc_port: self.mc_port,
        }
    }
}

impl Clone for ExternalProxy {
    fn clone(&self) -> (r: Self)
        ensures
            r@ == self@,
    {
        ExternalProxy {
            addr: clone_opt_string(&self.addr),
            port: self.port,
            base_addr: clone_opt_string(&self.base_addr),
            mc_port: self.mc_port,
        }
    }
}

fn clone_opt_string(s: &Option<String>) -> (r: Option<String>)
    ensures
        (r is Some <==> s is Some),
        r matches Some(v) ==> s matches Some(w) && v@ == w@,
{
    match s {
        Some(v) => Some(v.clone()),
        None => None,
    }
}

fn clone_uuid_vec(v: &Vec<Uuid>) -> (r: Vec<Uuid>)
    ensures
        r@ == v@,
{
    let mut out: Vec<Uuid> = Vec::new();
    let mut k: usize = 0;
    while k < v.len()
        invariant
            k <= v@.len(),
            out@ =~= v@.subrange(0, k as int),
        decreases v@.len() - k,
    {
        out.push(v[k]);
        k += 1;
    }
    proof {
        assert(out@ =~= v@);
    }
    out
}

/// A live client session: its identity, negotiated version, and mutable
/// per-session state. The socket halves live outside the library.
#[derive(Debug)]
pub struct Connection {
    pub id: ConnectionId,
    pub addr: IpAddrBytes,
    pub user_uuid: Uuid,
    pub protocol_version: u32,
    pub country: Option<CountryCode>,
    pub external_proxy: Option<ExternalProxy>,
    pub open_to_friends: Vec<Uuid>,
}

/// The mathematical form of a connection record.
pub struct ConnModel {
    pub id: u64,
    pub addr: Seq<u8>,
    pub user: u128,
    pub protocol_version: u32,
    pub country: Option<CountryCode>,
    pub external_proxy: Option<ProxyModel>,
    pub open_to_friends: Seq<Uuid>,
}

impl View for Connection {
    type V = ConnModel;

    open spec fn view(&self) -> ConnModel {
        ConnModel {
            id: self.id.spec_id(),
            addr: self.addr@,
            user: self.user_uuid.spec_value(),
            protocol_version: self.protocol_version,
            country: self.country,
            external_proxy: match &self.external_proxy {
                Some(p) => Some(p@),
                None => None,
            },
            open_to_friends: self.open_to_friends@,
        }
    }
}

impl Clone for Connection {
    fn clone(&self) -> (r: Self)
        ensures
            r@ == self@,
    {
        Connection {
            id: self.id,
            addr: self.addr,
            user_uuid: self.user_uuid,
            protocol_version: self.protocol_version,
            country: self.country,
            external_proxy: match &self.external_proxy {
                Some(p) => Some(p.clone()),
                None => None,
            },
            open_to_friends: clone_uuid_vec(&self.open_to_friends),
        }
    }
}

impl Connection {
    /// The trust level of the session: versions with challenge/response
    /// authentication grant `Offline` or `Secure` by the identifier form.
    pub fn security_level(&self) -> (r: SecurityLevel)
        ensures
            r == SecurityLevel::spec_from(
                self.user_uuid,
                self.protocol_version >= NEW_AUTH_PROTOCOL,
            ),
    {
        SecurityLevel::from(self.user_uuid, self.protocol_version >= NEW_AUTH_PROTOCOL)
    }
}

/// The first connection in the sequence with the given identifier.
pub open spec fn find_by_id(s: Seq<ConnModel>, id: u64) -> Option<ConnModel>
    decreases s.len(),
{
    if s.len() == 0 {
        None
    } else if s[0].id == id {
        Some(s[0])
    } else {
        find_by_id(s.drop_first(), id)
    }
}

/// The connections of one user, in arrival order.
pub open spec fn user_conns(s: Seq<ConnModel>, user: u128) -> Seq<ConnModel>
    decreases s.len(),
{
    if s.len() == 0 {
        seq![]
    } else if s.last().user == user {
        user_conns(s.drop_last(), user).push(s.last())
    } else {
        user_conns(s.drop_last(), user)
    }
}

/// No two connections share an identifier.
pub open spec fn unique_ids(s: Seq<ConnModel>) -> bool {
    forall|i: int, j: int| 0 <= i < j < s.len() ==> (#[trigger] s[i]).id != (#[trigger] s[j]).id
}

/// The sequence with the connection of the given identifier removed.
pub open spec fn remove_id(s: Seq<ConnModel>, id: u64) -> Seq<ConnModel>
    decreases s.len(),
{
    if s.len() == 0 {
        seq![]
    } else if s[0].id == id {
        s.drop_first()
    } else {
        seq![s[0]] + remove_id(s.drop_first(), id)
    }
}

/// The dual-indexed set of live connections.
pub struct ConnectionSet {
    connections: Vec<Connection>,
}

impl View for ConnectionSet {
    type V = Seq<ConnModel>;

    closed spec fn view(&self) -> Seq<ConnModel> {
        Seq::new(self.connections@.len(), |i: int| self.connections@[i]@)
    }
}

impl ConnectionSet {
    pub open spec fn wf(&self) -> bool {
        unique_ids(self@)
    }

    pub fn new() -> (r: ConnectionSet)
        ensures
            r.wf(),
            r@.len() == 0,
    {
        ConnectionSet { connections: Vec::new() }
    }

    /// Number of live connections.
    pub fn len(&self) -> (r: usize)
        ensures
            r == self@.len(),
    {
        self.connections.len()
    }

    fn position_of(&self, id: ConnectionId) -> (r: Option<usize>)
        ensures
            match r {
                Some(i) => 0 <= i < self@.len() && self@[i as int].id == id.spec_id() && Some(
                    self@[i as int],
                ) == find_by_id(self@, id.spec_id()),
                None => find_by_id(self@, id.spec_id()) is None,
            },
    {
        let ghost s = self@;
        let mut k: usize = 0;
        proof {
            assert(s.subrange(0, s.len() as int) =~= s);
        }
        while k < self.connections.len()
            invariant
                s == self@,
                k <= s.len(),
                find_by_id(s, id.spec_id()) == find_by_id(
                    s.subrange(k as int, s.len() as int),
                    id.spec_id(),
                ),
            decreases s.len() - k,
        {
            let ghost tail = s.subrange(k as int, s.len() as int);
            if self.connections[k].id.raw() == id.raw() {
                proof {
                    ConnectionId::lemma_eq(self.connections@[k as int].id, id);
                    assert(tail[0] == s[k as int]);
                }
                return Some(k);
            }
            proof {
                assert(tail.drop_first() =~= s.subrange(k + 1, s.len() as int));
                ConnectionId::lemma_eq(self.connections@[k as int].id, id);
                assert(tail[0].id != id.spec_id());
            }
            k += 1;
        }
        proof {
            assert(s.subrange(k as int, s.len() as int).len() == 0);
        }
        None
    }

    /// The connection with the given identifier, if it is live.
    pub fn by_id(&self, id: ConnectionId) -> (r: Option<&Connection>)
        ensures
            match r {
                Some(c) => Some(c@) == find_by_id(self@, id.spec_id()),
                None => find_by_id(self@, id.spec_id()) is None,
            },
    {
        match self.position_of(id) {
            Some(i) => Some(&self.connections[i]),
            None => None,
        }
    }

    /// A snapshot of the connections of one user, in arrival order.
    pub fn by_user_id(&self, user_id: Uuid) -> (r: Vec<Connection>)
        ensures
            Seq::new(r@.len(), |i: int| r@[i]@) == user_conns(self@, user_id.spec_value()),
    {
        let ghost s = self@;
        let mut out: Vec<Connection> = Vec::new();
        let mut k: usize = 0;
        proof {
            assert(s.subrange(0, 0) =~= Seq::<ConnModel>::empty());
        }
        while k < self.connections.len()
            invariant
                s == self@,
                k <= s.len(),
                Seq::new(out@.len(), |i: int| out@[i]@) =~= user_conns(
                    s.subrange(0, k as int),
                    user_id.spec_value(),
                ),
            decreases s.len() - k,
        {
            let ghost pre = s.subrange(0, k as int);
            let ghost now = s.subrange(0, k + 1);
            proof {
                assert(now.drop_last() =~= pre);
                assert(now.last() == s[k as int]);
            }
            if self.connections[k].user_uuid.raw() == user_id.raw() {
                out.push(self.connections[k].clone());
                proof {
                    assert(Seq::new(out@.len(), |i: int| out@[i]@) =~= user_conns(
                        now,
                        user_id.spec_value(),
                    ));
                }
            } else {
                proof {
                    assert(Seq::new(out@.len(), |i: int| out@[i]@) =~= user_conns(
                        now,
                        user_id.spec_value(),
                    ));
                }
            }
            k += 1;
        }
        proof {
            assert(s.subrange(0, s.len() as int) =~= s);
        }
        out
    }

    /// Adds a connection; refused when its identifier is already live.
    pub fn add(&mut self, connection: Connection) -> (r: bool)
        requires
            old(self).wf(),
        ensures
            final(self).wf(),
            r <==> find_by_id(old(self)@, connection.id.spec_id()) is None,
            r ==> final(self)@ == old(self)@.push(connection@),
            !r ==> final(self)@ == old(self)@,
    {
        if self.position_of(connection.id).is_some() {
            return false;
        }
        let ghost s = self@;
        let ghost m = connection@;
        self.connections.push(connection);
        proof {
            assert(final(self)@ =~= s.push(m));
            lemma_find_none_absent(s, m.id);
            assert(unique_ids(s.push(m)));
        }
        true
    }

    /// Adds a connection unconditionally: a live connection with the same
    /// identifier is removed first.
    pub fn add_force(&mut self, connection: Connection)
        requires
            old(self).wf(),
        ensures
            final(self).wf(),
            final(self)@ == remove_id(old(self)@, connection.id.spec_id()).push(connection@),
    {
        let ghost s = self@;
        let ghost m = connection@;
        match self.position_of(connection.id) {
            Some(i) => {
                self.connections.remove(i);
                proof {
                    assert(self@ =~= s.subrange(0, i as int) + s.subrange(
                        i + 1,
                        s.len() as int,
                    ));
                    lemma_remove_id_at(s, m.id, i as int);
                    lemma_remove_id_unique(s, m.id);
                }
            },
            None => {
                proof {
                    lemma_remove_id_absent(s, m.id);
                }
            },
        }
        let ghost s2 = self@;
        self.connections.push(connection);
        proof {
            assert(final(self)@ =~= s2.push(m));
            lemma_remove_id_no_id(s, m.id);
            assert(unique_ids(s2.push(m)));
        }
    }

    /// Removes the connection with this connection's identifier, if live.
    pub fn remove(&mut self, connection: &Connection)
        requires
            old(self).wf(),
        ensures
            final(self).wf(),
            final(self)@ == remove_id(old(self)@, connection.id.spec_id()),
    {
        let ghost s = self@;
        match self.position_of(connection.id) {
            Some(i) => {
                self.connections.remove(i);
                proof {
                    assert(self@ =~= s.subrange(0, i as int) + s.subrange(
                        i + 1,
                        s.len() as int,
                    ));
                    lemma_remove_id_at(s, connection.id.spec_id(), i as int);
                    lemma_remove_id_unique(s, connection.id.spec_id());
                }
            },
            None => {
                proof {
                    lemma_remove_id_absent(s, connection.id.spec_id());
                }
            },
        }
    }

    /// A snapshot of every live connection, in arrival order.
    pub fn iter(&self) -> (r: Vec<Connection>)
        ensures
            Seq::new(r@.len(), |i: int| r@[i]@) == self@,
    {
        let mut out: Vec<Connection> = Vec::new();
        let mut k: usize = 0;
        while k < self.connections.len()
            invariant
                k <= self@.len(),
                Seq::new(out@.len(), |i: int| out@[i]@) =~= self@.subrange(0, k as int),
            decreases self@.len() - k,
        {
            let ghost prev = Seq::new(out@.len(), |i: int| out@[i]@);
            out.push(self.connections[k].clone());
            proof {
                assert(Seq::new(out@.len(), |i: int| out@[i]@) =~= prev.push(self@[k as int]));
                assert(prev.push(self@[k as int]) =~= self@.subrange(0, k + 1));
            }
            k += 1;
        }
        proof {
            assert(self@.subrange(0, self@.len() as int) =~= self@);
            assert(Seq::new(out@.len(), |i: int| out@[i]@) =~= self@);
        }
        out
    }
}

proof fn lemma_find_none_absent(s: Seq<ConnModel>, id: u64)
    requires
        find_by_id(s, id) is None,
    ensures
        forall|i: int| 0 <= i < s.len() ==> (#[trigger] s[i]).id != id,
    decreases s.len(),
{
    if s.len() > 0 {
        lemma_find_none_absent(s.drop_first(), id);
        assert forall|i: int| 0 <= i < s.len() implies (#[trigger] s[i]).id != id by {
            if i > 0 {
                assert(s.drop_first()[i - 1] == s[i]);
            }
        }
    }
}

/// Removing an identifier that is at position `i` (and nowhere else)
/// removes exactly that element.
proof fn lemma_remove_id_at(s: Seq<ConnModel>, id: u64, i: int)
    requires
        unique_ids(s),
        0 <= i < s.len(),
        s[i].id == id,
    ensures
        remove_id(s, id) == s.subrange(0, i) + s.subrange(i + 1, s.len() as int),
    decreases s.len(),
{
    if i == 0 {
        assert(s.subrange(0, 0) =~= Seq::<ConnModel>::empty());
        assert(s.drop_first() =~= s.subrange(1, s.len() as int));
        assert(remove_id(s, id) =~= s.subrange(0, 0) + s.subrange(1, s.len() as int));
    } else {
        assert(s[0].id != id);
        let t = s.drop_first();
        assert(t[i - 1] == s[i]);
        assert(unique_ids(t)) by {
            assert forall|a: int, b: int|
                0 <= a < b < t.len() implies (#[trigger] t[a]).id != (#[trigger] t[b]).id by {
                assert(t[a] == s[a + 1] && t[b] == s[b + 1]);
            }
        }
        lemma_remove_id_at(t, id, i - 1);
        assert(remove_id(s, id) == seq![s[0]] + remove_id(t, id));
        assert(seq![s[0]] + (t.subrange(0, i - 1) + t.subrange(i, t.len() as int)) =~= s.subrange(
            0,
            i,
        ) + s.subrange(i + 1, s.len() as int));
    }
}

/// Removing an identifier preserves uniqueness.
proof fn lemma_remove_id_unique(s: Seq<ConnModel>, id: u64)
    requires
        unique_ids(s),
    ensures
        unique_ids(remove_id(s, id)),
    decreases s.len(),
{
    if s.len() > 0 {
        let t = s.drop_first();
        assert(unique_ids(t)) by {
            assert forall|a: int, b: int|
                0 <= a < b < t.len() implies (#[trigger] t[a]).id != (#[trigger] t[b]).id by {
                assert(t[a] == s[a + 1] && t[b] == s[b + 1]);
            }
        }
        if s[0].id == id {
        } else {
            lemma_remove_id_unique(t, id);
            lemma_remove_id_subset(t, id);
            let r = seq![s[0]] + remove_id(t, id);
            assert forall|a: int, b: int|
                0 <= a < b < r.len() implies (#[trigger] r[a]).id != (#[trigger] r[b]).id by {
                if a == 0 {
                    assert(remove_id(t, id).contains(r[b])) by {
                        assert(r[b] == remove_id(t, id)[b - 1]);
                    }
                    let w = choose|w: int|
                        0 <= w < t.len() && t[w] == remove_id(t, id)[b - 1];
                    assert(s[w + 1] == t[w]);
                } else {
                    assert(r[a] == remove_id(t, id)[a - 1] && r[b] == remove_id(t, id)[b - 1]);
                }
            }
        }
    }
}

/// Every element that survives a removal was in the sequence.
proof fn lemma_remove_id_subset(s: Seq<ConnModel>, id: u64)
    ensures
        forall|i: int|
            0 <= i < remove_id(s, id).len() ==> exists|w: int|
                0 <= w < s.len() && s[w] == (#[trigger] remove_id(s, id)[i]),
    decreases s.len(),
{
    if s.len() > 0 {
        if s[0].id == id {
            assert forall|i: int|
                0 <= i < remove_id(s, id).len() implies exists|w: int|
                    0 <= w < s.len() && s[w] == (#[trigger] remove_id(s, id)[i]) by {
                assert(s[i + 1] == remove_id(s, id)[i]);
            }
        } else {
            lemma_remove_id_subset(s.drop_first(), id);
            let t = s.drop_first();
            assert forall|i: int|
                0 <= i < remove_id(s, id).len() implies exists|w: int|
                    0 <= w < s.len() && s[w] == (#[trigger] remove_id(s, id)[i]) by {
                if i == 0 {
                    assert(s[0] == remove_id(s, id)[0]);
                } else {
                    assert(remove_id(s, id)[i] == remove_id(t, id)[i - 1]);
                    let w = choose|w: int|
                        0 <= w < t.len() && t[w] == remove_id(t, id)[i - 1];
                    assert(s[w + 1] == t[w]);
                }
            }
        }
    }
}

/// Removing an absent identifier changes nothing.
proof fn lemma_remove_id_absent(s: Seq<ConnModel>, id: u64)
    requires
        find_by_id(s, id) is None,
    ensures
        remove_id(s, id) == s,
    decreases s.len(),
{
    if s.len() > 0 {
        lemma_remove_id_absent(s.drop_first(), id);
        assert(remove_id(s, id) =~= s);
    }
}

/// After a removal the identifier is gone.
proof fn lemma_remove_id_no_id(s: Seq<ConnModel>, id: u64)
    requires
        unique_ids(s),
    ensures
        forall|i: int| 0 <= i < remove_id(s, id).len() ==> (#[trigger] remove_id(s, id)[i]).id
            != id,
    decreases s.len(),
{
    if s.len() > 0 {
        let t = s.drop_first();
        assert(unique_ids(t)) by {
            assert forall|a: int, b: int|
                0 <= a < b < t.len() implies (#[trigger] t[a]).id != (#[trigger] t[b]).id by {
                assert(t[a] == s[a + 1] && t[b] == s[b + 1]);
            }
        }
        lemma_remove_id_no_id(t, id);
        if s[0].id == id {
            assert forall|i: int|
                0 <= i < remove_id(s, id).len() implies (#[trigger] remove_id(s, id)[i]).id
                != id by {
                assert(remove_id(s, id)[i] == t[i]);
                assert(t[i] == s[i + 1]);
            }
        } else {
            assert forall|i: int|
                0 <= i < remove_id(s, id).len() implies (#[trigger] remove_id(s, id)[i]).id
                != id by {
                if i > 0 {
                    assert(remove_id(s, id)[i] == remove_id(t, id)[i - 1]);
                }
            }
        }
    }
}

/// A found record carries the identifier it was found by.
pub proof fn lemma_find_id(s: Seq<ConnModel>, id: u64)
    ensures
        find_by_id(s, id) matches Some(c) ==> c.id == id,
    decreases s.len(),
{
    if s.len() > 0 && s[0].id != id {
        lemma_find_id(s.drop_first(), id);
    }
}

/// The dual-index consistency law: in a well-formed registry, every entry
/// of a user's bucket is findable by its identifier and is that very
/// record, and every record appears in its own user's bucket.
pub proof fn lemma_dual_index(s: Seq<ConnModel>, user: u128)
    requires
        unique_ids(s),
    ensures
        forall|k: int|
            0 <= k < user_conns(s, user).len() ==> find_by_id(
                s,
                (#[trigger] user_conns(s, user)[k]).id,
            ) == Some(user_conns(s, user)[k]),
        forall|i: int|
            0 <= i < s.len() && (#[trigger] s[i]).user == user ==> user_conns(s, user).contains(
                s[i],
            ),
{
    assert forall|k: int|
        0 <= k < user_conns(s, user).len() implies find_by_id(
        s,
        (#[trigger] user_conns(s, user)[k]).id,
    ) == Some(user_conns(s, user)[k]) by {
        lemma_user_conns_member(s, user, k);
        let w = choose|w: int| 0 <= w < s.len() && s[w] == user_conns(s, user)[k];
        lemma_find_at(s, w);
    }
    assert forall|i: int|
        0 <= i < s.len() && (#[trigger] s[i]).user == user implies user_conns(s, user).contains(
        s[i],
    ) by {
        lemma_user_conns_complete(s, user, i);
    }
}

/// Every bucket entry is a record of the sequence, with the bucket's user.
proof fn lemma_user_conns_member(s: Seq<ConnModel>, user: u128, k: int)
    requires
        0 <= k < user_conns(s, user).len(),
    ensures
        exists|w: int| 0 <= w < s.len() && s[w] == user_conns(s, user)[k],
        user_conns(s, user)[k].user == user,
    decreases s.len(),
{
    if s.len() > 0 {
        let t = s.drop_last();
        if s.last().user == user && k == user_conns(s, user).len() - 1 {
            assert(s[s.len() - 1] == user_conns(s, user)[k]);
        } else {
            lemma_user_conns_member(t, user, k);
            assert(user_conns(s, user)[k] == user_conns(t, user)[k]);
            let w = choose|w: int| 0 <= w < t.len() && t[w] == user_conns(t, user)[k];
            assert(s[w] == t[w]);
        }
    }
}

/// Every record with the user appears in the bucket.
proof fn lemma_user_conns_complete(s: Seq<ConnModel>, user: u128, i: int)
    requires
        0 <= i < s.len(),
        s[i].user == user,
    ensures
        user_conns(s, user).contains(s[i]),
    decreases s.len(),
{
    let t = s.drop_last();
    if i == s.len() - 1 {
        assert(user_conns(s, user).last() == s[i]);
    } else {
        lemma_user_conns_complete(t, user, i);
        let w = choose|w: int| 0 <= w < user_conns(t, user).len() && user_conns(t, user)[w] == t[i];
        if s.last().user == user {
            assert(user_conns(s, user)[w] == user_conns(t, user)[w]);
        } else {
            assert(user_conns(s, user) == user_conns(t, user));
        }
        assert(t[i] == s[i]);
    }
}

/// A record at a position in a unique-identifier sequence is what the
/// search by its identifier finds.
proof fn lemma_find_at(s: Seq<ConnModel>, w: int)
    requires
        unique_ids(s),
        0 <= w < s.len(),
    ensures
        find_by_id(s, s[w].id) == Some(s[w]),
    decreases s.len(),
{
    if w == 0 {
    } else {
        assert(s[0].id != s[w].id);
        let t = s.drop_first();
        assert(unique_ids(t)) by {
            assert forall|a: int, b: int|
                0 <= a < b < t.len() implies (#[trigger] t[a]).id != (#[trigger] t[b]).id by {
                assert(t[a] == s[a + 1] && t[b] == s[b + 1]);
            }
        }
        assert(t[w - 1] == s[w]);
        lemma_find_at(t, w - 1);
    }
}


/// The set union of a friend list into an existing list, keeping order of
/// first appearance.
pub open spec fn union_friends(cur: Seq<Uuid>, add: Seq<Uuid>) -> Seq<Uuid>
    decreases add.len(),
{
    if add.len() == 0 {
        cur
    } else if cur.contains(add[0]) {
        union_friends(cur, add.drop_first())
    } else {
        union_friends(cur.push(add[0]), add.drop_first())
    }
}

/// The list without any of the given friends.
pub open spec fn minus_friends(cur: Seq<Uuid>, remove: Seq<Uuid>) -> Seq<Uuid>
    decreases cur.len(),
{
    if cur.len() == 0 {
        cur
    } else if remove.contains(cur[0]) {
        minus_friends(cur.drop_first(), remove)
    } else {
        seq![cur[0]] + minus_friends(cur.drop_first(), remove)
    }
}

fn contains_uuid(v: &Vec<Uuid>, x: Uuid) -> (r: bool)
    ensures
        r <==> v@.contains(x),
{
    let mut k: usize = 0;
    while k < v.len()
        invariant
            k <= v@.len(),
            forall|i: int| 0 <= i < k ==> v@[i] != x,
        decreases v@.len() - k,
    {
        proof {
            crate::ids::Uuid::lemma_value_eq(v@[k as int], x);
        }
        if v[k].raw() == x.raw() {
            proof {
                assert(v@[k as int] == x);
            }
            return true;
        }
        k += 1;
    }
    proof {
        if v@.contains(x) {
            let w = choose|w: int| 0 <= w < v@.len() && v@[w] == x;
            assert(false);
        }
    }
    false
}

impl ConnectionSet {
    fn take_at(&mut self, i: usize) -> (r: Connection)
        requires
            0 <= i < old(self)@.len(),
        ensures
            r@ == old(self)@[i as int],
            final(self)@ == old(self)@.subrange(0, i as int) + old(self)@.subrange(
                i + 1,
                old(self)@.len() as int,
            ),
    {
        let c = self.connections.remove(i);
        proof {
            assert(final(self)@ =~= old(self)@.subrange(0, i as int) + old(self)@.subrange(
                i + 1,
                old(self)@.len() as int,
            ));
        }
        c
    }

    fn put_at(&mut self, i: usize, c: Connection)
        requires
            0 <= i <= old(self)@.len(),
        ensures
            final(self)@ == old(self)@.insert(i as int, c@),
    {
        self.connections.insert(i, c);
        proof {
            assert(final(self)@ =~= old(self)@.insert(i as int, c@));
        }
    }

    /// Marks the connection's world as open to the given friends: the set
    /// grows by the friends not already in it, in order.
    pub fn publish_friends(&mut self, id: ConnectionId, friends: &Vec<Uuid>)
        requires
            old(self).wf(),
        ensures
            final(self).wf(),
            match find_by_id(old(self)@, id.spec_id()) {
                Some(c) => final(self)@ == old(self)@.update(
                    index_of_id(old(self)@, id.spec_id()),
                    ConnModel {
                        open_to_friends: union_friends(c.open_to_friends, friends@),
                        ..c
                    },
                ),
                None => final(self)@ == old(self)@,
            },
    {
        let ghost s = self@;
        let i = match self.position_of_public(id) {
            Some(i) => i,
            None => {
                return;
            },
        };
        let mut c = self.take_at(i);
        let ghost m0 = c@;
        let ghost cur0 = c.open_to_friends@;
        let mut k: usize = 0;
        proof {
            assert(friends@.subrange(0, friends@.len() as int) =~= friends@);
        }
        while k < friends.len()
            invariant
                k <= friends@.len(),
                c@.id == m0.id,
                c@.addr == m0.addr,
                c@.user == m0.user,
                c@.protocol_version == m0.protocol_version,
                c@.country == m0.country,
                c@.external_proxy == m0.external_proxy,
                union_friends(cur0, friends@) == union_friends(
                    c.open_to_friends@,
                    friends@.subrange(k as int, friends@.len() as int),
                ),
            decreases friends@.len() - k,
        {
            let ghost tail = friends@.subrange(k as int, friends@.len() as int);
            proof {
                assert(tail[0] == friends@[k as int]);
                assert(tail.drop_first() =~= friends@.subrange(k + 1, friends@.len() as int));
            }
            let f = friends[k];
            if !contains_uuid(&c.open_to_friends, f) {
                c.open_to_friends.push(f);
            }
            k += 1;
        }
        proof {
            assert(friends@.subrange(k as int, friends@.len() as int).len() == 0);
        }
        self.put_at(i, c);
        proof {
            assert(final(self)@ =~= s.update(i as int, final(self)@[i as int]));
            lemma_update_same_ids(s, i as int, final(self)@[i as int]);
        }
    }

    /// Marks the connection's world as closed to the given friends.
    pub fn close_friends(&mut self, id: ConnectionId, friends: &Vec<Uuid>)
        requires
            old(self).wf(),
        ensures
            final(self).wf(),
            match find_by_id(old(self)@, id.spec_id()) {
                Some(c) => final(self)@ == old(self)@.update(
                    index_of_id(old(self)@, id.spec_id()),
                    ConnModel {
                        open_to_friends: minus_friends(c.open_to_friends, friends@),
                        ..c
                    },
                ),
                None => final(self)@ == old(self)@,
            },
    {
        let ghost s = self@;
        let i = match self.position_of_public(id) {
            Some(i) => i,
            None => {
                return;
            },
        };
        let mut c = self.take_at(i);
        let ghost cur0 = c.open_to_friends@;
        let mut kept: Vec<Uuid> = Vec::new();
        let mut k: usize = 0;
        proof {
            assert(cur0.subrange(0, cur0.len() as int) =~= cur0);
            assert(cur0.subrange(0, 0) =~= Seq::<Uuid>::empty());
        }
        while k < c.open_to_friends.len()
            invariant
                k <= cur0.len(),
                cur0 == c.open_to_friends@,
                kept@ + minus_friends(cur0.subrange(k as int, cur0.len() as int), friends@)
                    =~= minus_friends(cur0, friends@),
            decreases cur0.len() - k,
        {
            let ghost tail = cur0.subrange(k as int, cur0.len() as int);
            proof {
                assert(tail[0] == cur0[k as int]);
                assert(tail.drop_first() =~= cur0.subrange(k + 1, cur0.len() as int));
            }
            let f = c.open_to_friends[k];
            if !contains_uuid(friends, f) {
                kept.push(f);
            }
            k += 1;
        }
        proof {
            assert(cur0.subrange(k as int, cur0.len() as int).len() == 0);
            assert(kept@ =~= minus_friends(cur0, friends@));
        }
        c.open_to_friends = kept;
        self.put_at(i, c);
        proof {
            assert(final(self)@ =~= s.update(i as int, final(self)@[i as int]));
            lemma_update_same_ids(s, i as int, final(self)@[i as int]);
        }
    }

    /// Records the country a connection was located in.
    pub fn set_country(&mut self, id: ConnectionId, country: crate::country::CountryCode)
        requires
            old(self).wf(),
        ensures
            final(self).wf(),
            match find_by_id(old(self)@, id.spec_id()) {
                Some(c) => final(self)@ == old(self)@.update(
                    index_of_id(old(self)@, id.spec_id()),
                    ConnModel { country: Some(country), ..c },
                ),
                None => final(self)@ == old(self)@,
            },
    {
        let ghost s = self@;
        let i = match self.position_of_public(id) {
            Some(i) => i,
            None => {
                return;
            },
        };
        let mut c = self.take_at(i);
        c.country = Some(country);
        self.put_at(i, c);
        proof {
            assert(final(self)@ =~= s.update(i as int, final(self)@[i as int]));
            lemma_update_same_ids(s, i as int, final(self)@[i as int]);
        }
    }

    /// Records the external proxy chosen for a connection.
    pub fn set_external_proxy(&mut self, id: ConnectionId, proxy: ExternalProxy)
        requires
            old(self).wf(),
        ensures
            final(self).wf(),
            match find_by_id(old(self)@, id.spec_id()) {
                Some(c) => final(self)@ == old(self)@.update(
                    index_of_id(old(self)@, id.spec_id()),
                    ConnModel { external_proxy: Some(proxy@), ..c },
                ),
                None => final(self)@ == old(self)@,
            },
    {
        let ghost s = self@;
        let i = match self.position_of_public(id) {
            Some(i) => i,
            None => {
                return;
            },
        };
        let mut c = self.take_at(i);
        c.external_proxy = Some(proxy);
        self.put_at(i, c);
        proof {
            assert(final(self)@ =~= s.update(i as int, final(self)@[i as int]));
            lemma_update_same_ids(s, i as int, final(self)@[i as int]);
        }
    }

    fn position_of_public(&self, id: ConnectionId) -> (r: Option<usize>)
        ensures
            match r {
                Some(i) => 0 <= i < self@.len() && self@[i as int].id == id.spec_id() && i
                    == index_of_id(self@, id.spec_id()) && Some(self@[i as int]) == find_by_id(
                    self@,
                    id.spec_id(),
                ),
                None => find_by_id(self@, id.spec_id()) is None,
            },
    {
        let ghost s = self@;
        let mut k: usize = 0;
        proof {
            assert(s.subrange(0, s.len() as int) =~= s);
        }
        while k < self.connections.len()
            invariant
                s == self@,
                k <= s.len(),
                find_by_id(s, id.spec_id()) == find_by_id(
                    s.subrange(k as int, s.len() as int),
                    id.spec_id(),
                ),
                index_of_id(s, id.spec_id()) == k + index_of_id(
                    s.subrange(k as int, s.len() as int),
                    id.spec_id(),
                ),
            decreases s.len() - k,
        {
            let ghost tail = s.subrange(k as int, s.len() as int);
            proof {
                assert(tail[0] == s[k as int]);
                assert(tail.drop_first() =~= s.subrange(k + 1, s.len() as int));
                ConnectionId::lemma_eq(self.connections@[k as int].id, id);
            }
            if self.connections[k].id.raw() == id.raw() {
                return Some(k);
            }
            k += 1;
        }
        proof {
            assert(s.subrange(k as int, s.len() as int).len() == 0);
        }
        None
    }
}

/// Position of an identifier's record.
pub open spec fn index_of_id(s: Seq<ConnModel>, id: u64) -> int
    decreases s.len(),
{
    if s.len() == 0 {
        0
    } else if s[0].id == id {
        0
    } else {
        1 + index_of_id(s.drop_first(), id)
    }
}

/// Updating a record in place without changing its identifier keeps the
/// identifiers unique.
proof fn lemma_update_same_ids(s: Seq<ConnModel>, i: int, m: ConnModel)
    requires
        unique_ids(s),
        0 <= i < s.len(),
        m.id == s[i].id,
    ensures
        unique_ids(s.update(i, m)),
{
    let u = s.update(i, m);
    assert forall|a: int, b: int|
        0 <= a < b < u.len() implies (#[trigger] u[a]).id != (#[trigger] u[b]).id by {
        assert(s[a].id != s[b].id);
    }
}

} // verus!
