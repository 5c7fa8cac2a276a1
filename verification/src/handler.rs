//! Dispatch of client messages: for each received message the handler
//! consults the registry and the stores, mutates them as the protocol
//! demands, and decides which frames go to which connections. Delivering
//! the frames — and swallowing delivery errors — is the caller's job.

use vstd::prelude::*;
use crate::framing::enc_frame;
use crate::ids::{ConnectionId, SecurityLevel, Uuid};
use crate::messages::{JoinType, WorldHostC2SMessage};
use crate::registry::{
    find_by_id, user_conns, ConnModel, Connection, ConnectionSet, ExternalProxy,
};
use crate::s2c::{spec_parse_s2c, S2CSpec, WorldHostS2CMessage};
use crate::signalling::PortLookups;
use crate::stores::FriendRequestStore;
use crate::words::{dict_wf, Dictionary};

verus! {

/// The server's fixed configuration.
#[derive(Debug)]
pub struct FullServerConfig {
    pub port: u16,
    pub base_addr: Option<String>,
    pub in_java_port: u16,
    pub ex_java_port: u16,
    pub analytics_time_ms: u64,
    pub external_servers: Option<Vec<ExternalProxy>>,
}

/// The server's mutable shared state: the registry, the friend-request
/// store, the relay table and the pending port lookups.
pub struct ServerState {
    pub config: FullServerConfig,
    pub connections: ConnectionSet,
    pub friend_requests: FriendRequestStore,
    pub proxy_targets: Vec<(u64, u64)>,
    pub port_lookups: PortLookups,
}

impl ServerState {
    pub open spec fn wf(&self) -> bool {
        &&& self.connections.wf()
        &&& self.friend_requests.wf()
    }

    pub fn new(config: FullServerConfig) -> (r: ServerState)
        ensures
            r.wf(),
            r.connections@.len() == 0,
            r.friend_requests@.len() == 0,
            r.proxy_targets@.len() == 0,
            r.port_lookups@.len() == 0,
    {
        ServerState {
            config,
            connections: ConnectionSet::new(),
            friend_requests: FriendRequestStore::new(),
            proxy_targets: Vec::new(),
            port_lookups: PortLookups::new(),
        }
    }
}

/// One decided effect of a message.
pub enum Action {
    /// Deliver a frame to the connection; a delivery error is logged and
    /// swallowed.
    SendTo { target: ConnectionId, frame: Vec<u8> },
    /// Write bytes to a relay ingress socket.
    ProxyWrite { proxy_id: u64, data: Vec<u8> },
    /// Half-close a relay ingress socket.
    ProxyShutdown { proxy_id: u64 },
}

/// The mathematical form of an action.
pub enum ActionModel {
    SendTo { target: u64, frame: Seq<u8> },
    ProxyWrite { proxy_id: u64, data: Seq<u8> },
    ProxyShutdown { proxy_id: u64 },
}

impl View for Action {
    type V = ActionModel;

    open spec fn view(&self) -> ActionModel {
        match self {
            Action::SendTo { target, frame } => ActionModel::SendTo {
                target: target.spec_id(),
                frame: frame@,
            },
            Action::ProxyWrite { proxy_id, data } => ActionModel::ProxyWrite {
                proxy_id: *proxy_id,
                data: data@,
            },
            Action::ProxyShutdown { proxy_id } => ActionModel::ProxyShutdown {
                proxy_id: *proxy_id,
            },
        }
    }
}

/// The views of a list of actions.
pub open spec fn actions_view(v: Seq<Action>) -> Seq<ActionModel> {
    Seq::new(v.len(), |i: int| v[i]@)
}

/// True of a frame that decodes to the given message.
pub open spec fn frame_carries(frame: Seq<u8>, m: S2CSpec) -> bool {
    let buf = frame.subrange(4, frame.len() as int);
    &&& frame.len() >= 5
    &&& frame == enc_frame(buf)
    &&& spec_parse_s2c(buf[0], buf.subrange(1, buf.len() as int)) == Some(m)
}

/// True of an action that delivers the message to the target.
pub open spec fn sends_to(a: ActionModel, target: u64, m: S2CSpec) -> bool {
    a matches ActionModel::SendTo { target: t, frame } && t == target && frame_carries(frame, m)
}

/// A connection a broadcast reaches: not the sender, and new enough to
/// know the message.
pub open spec fn eligible(c: ConnModel, sender_id: u64, first_protocol: u32) -> bool {
    c.id != sender_id && c.protocol_version >= first_protocol
}

/// The eligible connections of a list, in order.
pub open spec fn eligible_conns(s: Seq<ConnModel>, sender_id: u64, first_protocol: u32) -> Seq<
    ConnModel,
>
    decreases s.len(),
{
    if s.len() == 0 {
        seq![]
    } else if eligible(s[0], sender_id, first_protocol) {
        seq![s[0]] + eligible_conns(s.drop_first(), sender_id, first_protocol)
    } else {
        eligible_conns(s.drop_first(), sender_id, first_protocol)
    }
}

/// Every connection a broadcast to the friends reaches, friend by friend.
pub open spec fn broadcast_targets(
    reg: Seq<ConnModel>,
    friends: Seq<Uuid>,
    sender_id: u64,
    first_protocol: u32,
) -> Seq<ConnModel>
    decreases friends.len(),
{
    if friends.len() == 0 {
        seq![]
    } else {
        eligible_conns(user_conns(reg, friends[0].value), sender_id, first_protocol)
            + broadcast_targets(reg, friends.drop_first(), sender_id, first_protocol)
    }
}

/// Sends the message to every eligible connection of the list.
#[verifier::loop_isolation(false)]
fn send_each(
    conns: &Vec<Connection>,
    sender_id: ConnectionId,
    message: &WorldHostS2CMessage,
    out: &mut Vec<Action>,
)
    requires
        message.wf(),
    ensures
        ({
            let ts = eligible_conns(
                Seq::new(conns@.len(), |i: int| conns@[i]@),
                sender_id.spec_id(),
                message.spec_first_protocol(),
            );
            &&& final(out)@.len() == old(out)@.len() + ts.len()
            &&& forall|k: int|
                0 <= k < old(out)@.len() ==> final(out)@[k] == old(out)@[k]
            &&& forall|k: int|
                old(out)@.len() <= k < final(out)@.len() ==> sends_to(
                    #[trigger] final(out)@[k]@,
                    ts[k - old(out)@.len()].id,
                    message@,
                )
        }),
{
    let ghost cs = Seq::new(conns@.len(), |i: int| conns@[i]@);
    let ghost fp = message.spec_first_protocol();
    let ghost base = out@.len() as int;
    let mut k: usize = 0;
    proof {
        assert(cs.subrange(0, cs.len() as int) =~= cs);
        assert(eligible_conns(cs.subrange(0, 0), sender_id.spec_id(), fp) =~= Seq::<
            ConnModel,
        >::empty());
    }
    while k < conns.len()
        invariant
            k <= cs.len(),
            out@.len() == base + eligible_conns(
                cs.subrange(0, k as int),
                sender_id.spec_id(),
                fp,
            ).len(),
            forall|j: int| 0 <= j < base ==> out@[j] == old(out)@[j],
            forall|j: int|
                base <= j < out@.len() ==> sends_to(
                    #[trigger] out@[j]@,
                    eligible_conns(cs.subrange(0, k as int), sender_id.spec_id(), fp)[j - base].id,
                    message@,
                ),
        decreases cs.len() - k,
    {
        proof {
            lemma_eligible_snoc(cs, k as int, sender_id.spec_id(), fp);
        }
        let c = &conns[k];
        if c.id.raw() != sender_id.raw() {
            proof {
                ConnectionId::lemma_eq(conns@[k as int].id, sender_id);
            }
            match message.encode_for_protocol(c.protocol_version) {
                Some(frame) => {
                    out.push(Action::SendTo { target: c.id, frame });
                },
                None => {},
            }
        } else {
            proof {
                ConnectionId::lemma_eq(conns@[k as int].id, sender_id);
            }
        }
        k += 1;
    }
    proof {
        assert(cs.subrange(0, cs.len() as int) =~= cs);
    }
}

/// Extending the processed prefix by one connection extends the eligible
/// list exactly when that connection is eligible.
proof fn lemma_eligible_snoc(cs: Seq<ConnModel>, k: int, sender_id: u64, fp: u32)
    requires
        0 <= k < cs.len(),
    ensures
        eligible_conns(cs.subrange(0, k + 1), sender_id, fp) == if eligible(cs[k], sender_id, fp) {
            eligible_conns(cs.subrange(0, k), sender_id, fp).push(cs[k])
        } else {
            eligible_conns(cs.subrange(0, k), sender_id, fp)
        },
{
    lemma_eligible_push(cs.subrange(0, k), cs[k], sender_id, fp);
    assert(cs.subrange(0, k).push(cs[k]) =~= cs.subrange(0, k + 1));
}

proof fn lemma_eligible_push(s: Seq<ConnModel>, c: ConnModel, sender_id: u64, fp: u32)
    ensures
        eligible_conns(s.push(c), sender_id, fp) == if eligible(c, sender_id, fp) {
            eligible_conns(s, sender_id, fp).push(c)
        } else {
            eligible_conns(s, sender_id, fp)
        },
    decreases s.len(),
{
    if s.len() == 0 {
        assert(s.push(c)[0] == c);
        assert(s.push(c).drop_first() =~= Seq::<ConnModel>::empty());
        assert(s =~= Seq::<ConnModel>::empty());
        if eligible(c, sender_id, fp) {
            assert(eligible_conns(s.push(c), sender_id, fp) =~= eligible_conns(
                s,
                sender_id,
                fp,
            ).push(c));
        }
    } else {
        lemma_eligible_push(s.drop_first(), c, sender_id, fp);
        assert(s.push(c)[0] == s[0]);
        assert(s.push(c).drop_first() =~= s.drop_first().push(c));
        if eligible(s[0], sender_id, fp) && eligible(c, sender_id, fp) {
            assert(seq![s[0]] + eligible_conns(s.drop_first(), sender_id, fp).push(c) =~= (
            seq![s[0]] + eligible_conns(s.drop_first(), sender_id, fp)).push(c));
        }
    }
}

/// Sends the message to every eligible connection of every friend.
#[verifier::loop_isolation(false)]
pub fn broadcast_to_friends(
    connections: &ConnectionSet,
    sender_id: ConnectionId,
    friends: &Vec<Uuid>,
    message: &WorldHostS2CMessage,
) -> (r: Vec<Action>)
    requires
        message.wf(),
    ensures
        ({
            let ts = broadcast_targets(
                connections@,
                friends@,
                sender_id.spec_id(),
                message.spec_first_protocol(),
            );
            &&& r@.len() == ts.len()
            &&& forall|k: int|
                0 <= k < ts.len() ==> sends_to(#[trigger] r@[k]@, ts[k].id, message@)
        }),
{
    let ghost reg = connections@;
    let ghost fp = message.spec_first_protocol();
    let mut out: Vec<Action> = Vec::new();
    let mut k: usize = 0;
    proof {
        assert(friends@.subrange(0, friends@.len() as int) =~= friends@);
    }
    while k < friends.len()
        invariant
            k <= friends@.len(),
            out@.len() + broadcast_targets(
                reg,
                friends@.subrange(k as int, friends@.len() as int),
                sender_id.spec_id(),
                fp,
            ).len() == broadcast_targets(reg, friends@, sender_id.spec_id(), fp).len(),
            forall|j: int|
                0 <= j < out@.len() ==> sends_to(
                    #[trigger] out@[j]@,
                    broadcast_targets(reg, friends@, sender_id.spec_id(), fp)[j].id,
                    message@,
                ),
            broadcast_targets(reg, friends@, sender_id.spec_id(), fp) =~= broadcast_targets(
                reg,
                friends@,
                sender_id.spec_id(),
                fp,
            ).subrange(0, out@.len() as int) + broadcast_targets(
                reg,
                friends@.subrange(k as int, friends@.len() as int),
                sender_id.spec_id(),
                fp,
            ),
        decreases friends@.len() - k,
    {
        let ghost ftail = friends@.subrange(k as int, friends@.len() as int);
        proof {
            assert(ftail[0] == friends@[k as int]);
            assert(ftail.drop_first() =~= friends@.subrange(k + 1, friends@.len() as int));
        }
        let conns = connections.by_user_id(friends[k]);
        let ghost pre = out@;
        send_each(&conns, sender_id, message, &mut out);
        proof {
            let all = broadcast_targets(reg, friends@, sender_id.spec_id(), fp);
            let added = eligible_conns(
                user_conns(reg, friends@[k as int].value),
                sender_id.spec_id(),
                fp,
            );
            assert(Seq::new(conns@.len(), |i: int| conns@[i]@) == user_conns(
                reg,
                friends@[k as int].value,
            ));
            assert(broadcast_targets(reg, ftail, sender_id.spec_id(), fp) == added
                + broadcast_targets(reg, ftail.drop_first(), sender_id.spec_id(), fp));
            assert forall|j: int| 0 <= j < out@.len() implies sends_to(
                #[trigger] out@[j]@,
                all[j].id,
                message@,
            ) by {
                if j < pre.len() {
                    assert(out@[j] == pre[j]);
                } else {
                    assert(sends_to(out@[j]@, added[j - pre.len()].id, message@));
                    assert(all =~= all.subrange(0, pre.len() as int) + added + broadcast_targets(
                        reg,
                        ftail.drop_first(),
                        sender_id.spec_id(),
                        fp,
                    ));
                    assert(all[j] == added[j - pre.len()]);
                }
            }
            assert(all =~= all.subrange(0, out@.len() as int) + broadcast_targets(
                reg,
                ftail.drop_first(),
                sender_id.spec_id(),
                fp,
            ));
        }
        k += 1;
    }
    proof {
        assert(friends@.subrange(k as int, friends@.len() as int).len() == 0);
        assert(broadcast_targets(
            reg,
            friends@.subrange(k as int, friends@.len() as int),
            sender_id.spec_id(),
            fp,
        ).len() == 0);
    }
    out
}


/// What one targeted delivery appends: one frame when the message fits
/// the wire format and the target's protocol version knows it, else
/// nothing.
pub open spec fn single_send(r: Seq<ActionModel>, t: ConnModel, m: S2CSpec) -> bool {
    if crate::s2c::spec_wf_s2c(m) && t.protocol_version >= crate::s2c::spec_fp_s2c(m) {
        r.len() == 1 && sends_to(r[0], t.id, m)
    } else {
        r.len() == 0
    }
}

/// Appends the delivery of one message to one connection, dropped when
/// the message does not fit the wire format or the peer is too old.
fn send_one(target: &Connection, message: &WorldHostS2CMessage, out: &mut Vec<Action>)
    ensures
        final(out)@.len() >= old(out)@.len(),
        forall|j: int| 0 <= j < old(out)@.len() ==> final(out)@[j] == old(out)@[j],
        single_send(
            actions_view(final(out)@).subrange(old(out)@.len() as int, final(out)@.len() as int),
            target@,
            message@,
        ),
{
    let ghost pre = out@;
    if message.wf_check() {
        match message.encode_for_protocol(target.protocol_version) {
            Some(frame) => {
                out.push(Action::SendTo { target: target.id, frame });
                proof {
                    assert(actions_view(out@).subrange(pre.len() as int, out@.len() as int)
                        =~= seq![out@.last()@]);
                }
            },
            None => {
                proof {
                    assert(actions_view(out@).subrange(pre.len() as int, out@.len() as int).len()
                        == 0);
                }
            },
        }
    } else {
        proof {
            assert(actions_view(out@).subrange(pre.len() as int, out@.len() as int).len() == 0);
        }
    }
}

/// The target connection identifier a relay entry points at.
pub open spec fn lookup_proxy(s: Seq<(u64, u64)>, proxy_id: u64) -> Option<u64>
    decreases s.len(),
{
    if s.len() == 0 {
        None
    } else if s[0].0 == proxy_id {
        Some(s[0].1)
    } else {
        lookup_proxy(s.drop_first(), proxy_id)
    }
}

fn find_proxy_target(s: &Vec<(u64, u64)>, proxy_id: u64) -> (r: Option<u64>)
    ensures
        r == lookup_proxy(s@, proxy_id),
{
    let ghost sv = s@;
    let mut k: usize = 0;
    proof {
        assert(sv.subrange(0, sv.len() as int) =~= sv);
    }
    while k < s.len()
        invariant
            sv == s@,
            k <= sv.len(),
            lookup_proxy(sv, proxy_id) == lookup_proxy(
                sv.subrange(k as int, sv.len() as int),
                proxy_id,
            ),
        decreases sv.len() - k,
    {
        let ghost tail = sv.subrange(k as int, sv.len() as int);
        proof {
            assert(tail[0] == sv[k as int]);
            assert(tail.drop_first() =~= sv.subrange(k + 1, sv.len() as int));
        }
        let e = s[k];
        if e.0 == proxy_id {
            return Some(e.1);
        }
        k += 1;
    }
    proof {
        assert(sv.subrange(k as int, sv.len() as int).len() == 0);
    }
    None
}

fn clone_bytes(v: &Vec<u8>) -> (r: Vec<u8>)
    ensures
        r@ == v@,
{
    let mut out: Vec<u8> = Vec::new();
    let mut k: usize = 0;
    while k < v.len()
        invariant
            k <= v@.len(),
            out@ =~= v@.subrange(0, k as int),
        decreases v@.len() - k,
    {
        out.push(v[k]);
        k += 1;
    }
    proof {
        assert(out@ =~= v@);
    }
    out
}

fn clone_string(s: &String) -> (r: String)
    ensures
        r@ == s@,
{
    s.clone()
}

impl View for FullServerConfig {
    type V = ConfigModel;

    open spec fn view(&self) -> ConfigModel {
        ConfigModel {
            port: self.port,
            base_addr: match &self.base_addr {
                Some(a) => Some(a@),
                None => None,
            },
            in_java_port: self.in_java_port,
            ex_java_port: self.ex_java_port,
            analytics_time_ms: self.analytics_time_ms,
        }
    }
}

/// The mathematical form of the configuration, without the proxy list.
pub struct ConfigModel {
    pub port: u16,
    pub base_addr: Option<Seq<char>>,
    pub in_java_port: u16,
    pub ex_java_port: u16,
    pub analytics_time_ms: u64,
}

/// The response a granted join produces: the sender's own endpoint for
/// UPnP, the relay endpoint for Proxy, nothing for Punch or when no relay
/// address is configured.
pub open spec fn online_game_spec(
    c: ConnModel,
    cfg: ConfigModel,
    d: Seq<Seq<char>>,
    jt: JoinType,
    sender_ip: Seq<char>,
) -> Option<S2CSpec> {
    match jt {
        JoinType::UPnP(port) => Some(
            S2CSpec::OnlineGame {
                host: sender_ip,
                port,
                owner_cid: ConnectionId::spec_new(c.id),
            },
        ),
        JoinType::Proxy => {
            let ep = if c.protocol_version >= 3 {
                c.external_proxy
            } else {
                None
            };
            let base = match ep {
                Some(p) => match p.base_addr {
                    Some(b) => Some(b),
                    None => cfg.base_addr,
                },
                None => cfg.base_addr,
            };
            let port = match ep {
                Some(p) => p.mc_port,
                None => cfg.ex_java_port,
            };
            match base {
                Some(b) => Some(
                    S2CSpec::OnlineGame {
                        host: crate::words::spec_render(d, c.id as u64) + seq!['.'] + b,
                        port,
                        owner_cid: ConnectionId::spec_new(c.id),
                    },
                ),
                None => None,
            }
        },
        JoinType::Punch => None,
    }
}

/// Builds the `OnlineGame` response for a granted join.
fn to_online_game(
    sender: &Connection,
    config: &FullServerConfig,
    dict: &Dictionary,
    join_type: &JoinType,
    sender_ip: &String,
) -> (r: Option<WorldHostS2CMessage>)
    requires
        dict_wf(dict@),
    ensures
        match online_game_spec(sender@, config@, dict@, *join_type, sender_ip@) {
            Some(m) => r matches Some(msg) && msg@ == m,
            None => r is None,
        },
{
    match join_type {
        JoinType::UPnP(port) => {
            proof {
                ConnectionId::lemma_eq(sender.id, sender.id);
            }
            Some(
                WorldHostS2CMessage::OnlineGame {
                    host: clone_string(sender_ip),
                    port: *port,
                    owner_cid: sender.id,
                },
            )
        },
        JoinType::Proxy => {
            let ep: &Option<ExternalProxy> = if sender.protocol_version >= 3 {
                &sender.external_proxy
            } else {
                &None
            };
            let base: Option<String> = match ep {
                Some(p) => match &p.base_addr {
                    Some(b) => Some(clone_string(b)),
                    None => match &config.base_addr {
                        Some(b) => Some(clone_string(b)),
                        None => None,
                    },
                },
                None => match &config.base_addr {
                    Some(b) => Some(clone_string(b)),
                    None => None,
                },
            };
            let port: u16 = match ep {
                Some(p) => p.mc_port,
                None => config.ex_java_port,
            };
            match base {
                Some(b) => {
                    let mut host = dict.render(sender.id);
                    host.append(".");
                    host.append(b.as_str());
                    proof {
                        reveal_strlit(".");
                        assert("."@ =~= seq!['.']);
                        assert(host@ =~= crate::words::spec_render(
                            dict@,
                            sender@.id as u64,
                        ) + seq!['.'] + b@);
                        ConnectionId::lemma_eq(sender.id, sender.id);
                    }
                    Some(
                        WorldHostS2CMessage::OnlineGame {
                            host,
                            port,
                            owner_cid: sender.id,
                        },
                    )
                },
                None => None,
            }
        },
        JoinType::Punch => None,
    }
}


/// The refusal sent to modern clients that use the legacy join request.
pub open spec fn request_join_refusal() -> Seq<char> {
    "Please use the v4+ RequestDirectJoin message instead of the unsupported RequestJoin message"@
}

/// The debug name of a join type, as it appears in the unsupported-join
/// error.
pub open spec fn join_type_name(jt: JoinType) -> Seq<char> {
    match jt {
        JoinType::UPnP(port) => "UPnP("@ + crate::text::dec_chars(port as nat) + ")"@,
        JoinType::Proxy => "Proxy"@,
        JoinType::Punch => "Punch"@,
    }
}

/// The error sent when a granted join cannot be answered.
pub open spec fn unsupported_join_text(jt: JoinType) -> Seq<char> {
    "This server does not support JoinType "@ + join_type_name(jt)
}

fn join_type_name_exec(jt: &JoinType) -> (r: String)
    ensures
        r@ == join_type_name(*jt),
{
    match jt {
        JoinType::UPnP(port) => {
            let mut m = String::from_str("UPnP(");
            m.append(crate::text::u64_to_string(*port as u64).as_str());
            m.append(")");
            m
        },
        JoinType::Proxy => String::from_str("Proxy"),
        JoinType::Punch => String::from_str("Punch"),
    }
}

/// Broadcast outcome: one frame per eligible target connection.
pub open spec fn post_broadcast(
    ts: Seq<ConnModel>,
    m: S2CSpec,
    r: Seq<ActionModel>,
) -> bool {
    &&& r.len() == ts.len()
    &&& forall|k: int| 0 <= k < ts.len() ==> sends_to(#[trigger] r[k], ts[k].id, m)
}

/// What one message kind does, given the sender's record. Each predicate
/// speaks over the state before and after, and the actions produced.
pub open spec fn post_list_online(
    pre: ServerState,
    post: ServerState,
    sc: ConnModel,
    friends: Seq<Uuid>,
    r: Seq<ActionModel>,
) -> bool {
    &&& unchanged_stores(pre, post)
    &&& post_broadcast(
        broadcast_targets(pre.connections@, friends, sc.id, 2),
        S2CSpec::IsOnlineTo { user: Uuid { value: sc.user } },
        r,
    )
}

pub open spec fn sender_security(sc: ConnModel) -> SecurityLevel {
    SecurityLevel::spec_from(
        Uuid { value: sc.user },
        sc.protocol_version >= crate::versions::NEW_AUTH_PROTOCOL,
    )
}

pub open spec fn post_friend_request(
    pre: ServerState,
    post: ServerState,
    sc: ConnModel,
    to_user: Uuid,
    r: Seq<ActionModel>,
) -> bool {
    &&& post.connections@ == pre.connections@
    &&& post.port_lookups@ == pre.port_lookups@
    &&& if user_conns(pre.connections@, to_user.value).len() > 0 {
        &&& post.friend_requests@ == pre.friend_requests@
        &&& post_broadcast(
            eligible_conns(user_conns(pre.connections@, to_user.value), sc.id, 2),
            S2CSpec::FriendRequest { from_user: Uuid { value: sc.user }, security: sender_security(sc) },
            r,
        )
    } else if sender_security(sc) != SecurityLevel::Insecure {
        &&& r.len() == 0
        &&& post.friend_requests@ == crate::stores::enqueue_spec(
            pre.friend_requests@,
            Uuid { value: sc.user },
            to_user,
        )
    } else {
        &&& r.len() == 0
        &&& post.friend_requests@ == pre.friend_requests@
    }
}

pub open spec fn post_published_world(
    pre: ServerState,
    post: ServerState,
    sc: ConnModel,
    friends: Seq<Uuid>,
    r: Seq<ActionModel>,
) -> bool {
    &&& post.friend_requests@ == pre.friend_requests@
    &&& post.port_lookups@ == pre.port_lookups@
    &&& post.connections@ == pre.connections@.update(
        crate::registry::index_of_id(pre.connections@, sc.id),
        ConnModel {
            open_to_friends: crate::registry::union_friends(sc.open_to_friends, friends),
            ..sc
        },
    )
    &&& post_broadcast(
        broadcast_targets(post.connections@, friends, sc.id, 2),
        S2CSpec::PublishedWorld {
            user: Uuid { value: sc.user },
            connection_id: ConnectionId::spec_new(sc.id),
            security: sender_security(sc),
        },
        r,
    )
}

pub open spec fn post_closed_world(
    pre: ServerState,
    post: ServerState,
    sc: ConnModel,
    friends: Seq<Uuid>,
    r: Seq<ActionModel>,
) -> bool {
    &&& post.friend_requests@ == pre.friend_requests@
    &&& post.port_lookups@ == pre.port_lookups@
    &&& post.connections@ == pre.connections@.update(
        crate::registry::index_of_id(pre.connections@, sc.id),
        ConnModel {
            open_to_friends: crate::registry::minus_friends(sc.open_to_friends, friends),
            ..sc
        },
    )
    &&& post_broadcast(
        broadcast_targets(post.connections@, friends, sc.id, 2),
        S2CSpec::ClosedWorld { user: Uuid { value: sc.user } },
        r,
    )
}

pub open spec fn post_request_join(
    pre: ServerState,
    post: ServerState,
    sc: ConnModel,
    friend: Uuid,
    r: Seq<ActionModel>,
) -> bool {
    &&& unchanged_stores(pre, post)
    &&& if sc.protocol_version >= 4 {
        single_send(r, sc, S2CSpec::Error { message: request_join_refusal(), critical: false })
    } else if user_conns(pre.connections@, friend.value).len() > 0 {
        single_send(
            r,
            user_conns(pre.connections@, friend.value).last(),
            S2CSpec::RequestJoin {
                user: Uuid { value: sc.user },
                connection_id: ConnectionId::spec_new(sc.id),
                security: sender_security(sc),
            },
        )
    } else {
        r.len() == 0
    }
}

pub open spec fn post_join_granted(
    pre: ServerState,
    post: ServerState,
    sc: ConnModel,
    connection_id: ConnectionId,
    join_type: JoinType,
    d: Seq<Seq<char>>,
    sender_ip: Seq<char>,
    r: Seq<ActionModel>,
) -> bool {
    &&& unchanged_stores(pre, post)
    &&& match online_game_spec(sc, pre.config@, d, join_type, sender_ip) {
        None => single_send(
            r,
            sc,
            S2CSpec::Error { message: unsupported_join_text(join_type), critical: false },
        ),
        Some(resp) => if connection_id.spec_id() == sc.id {
            r.len() == 0
        } else {
            match find_by_id(pre.connections@, connection_id.spec_id()) {
                Some(t) => single_send(r, t, resp),
                None => r.len() == 0,
            }
        },
    }
}

pub open spec fn post_query_request(
    pre: ServerState,
    post: ServerState,
    sc: ConnModel,
    friends: Seq<Uuid>,
    r: Seq<ActionModel>,
) -> bool {
    &&& unchanged_stores(pre, post)
    &&& post_broadcast(
        broadcast_targets(pre.connections@, friends, sc.id, 2),
        S2CSpec::QueryRequest {
            friend: Uuid { value: sc.user },
            connection_id: ConnectionId::spec_new(sc.id),
            security: sender_security(sc),
        },
        r,
    )
}

pub open spec fn post_proxy_packet(
    pre: ServerState,
    post: ServerState,
    sc: ConnModel,
    proxy_id: u64,
    data: Seq<u8>,
    r: Seq<ActionModel>,
) -> bool {
    &&& unchanged_stores(pre, post)
    &&& match lookup_proxy(pre.proxy_targets@, proxy_id) {
        Some(t) => if t == sc.id {
            r == seq![ActionModel::ProxyWrite { proxy_id, data }]
        } else {
            r.len() == 0
        },
        None => r.len() == 0,
    }
}

pub open spec fn post_proxy_disconnect(
    pre: ServerState,
    post: ServerState,
    sc: ConnModel,
    proxy_id: u64,
    r: Seq<ActionModel>,
) -> bool {
    &&& unchanged_stores(pre, post)
    &&& match lookup_proxy(pre.proxy_targets@, proxy_id) {
        Some(t) => if t == sc.id {
            r == seq![ActionModel::ProxyShutdown { proxy_id }]
        } else {
            r.len() == 0
        },
        None => r.len() == 0,
    }
}

pub open spec fn post_request_direct_join(
    pre: ServerState,
    post: ServerState,
    sc: ConnModel,
    connection_id: ConnectionId,
    r: Seq<ActionModel>,
) -> bool {
    &&& unchanged_stores(pre, post)
    &&& if connection_id.spec_id() != sc.id && find_by_id(
        pre.connections@,
        connection_id.spec_id(),
    ) is Some {
        single_send(
            r,
            find_by_id(pre.connections@, connection_id.spec_id())->Some_0,
            S2CSpec::RequestJoin {
                user: Uuid { value: sc.user },
                connection_id: ConnectionId::spec_new(sc.id),
                security: sender_security(sc),
            },
        )
    } else {
        single_send(r, sc, S2CSpec::ConnectionNotFound { connection_id })
    }
}

pub open spec fn post_request_punch_open(
    pre: ServerState,
    post: ServerState,
    sc: ConnModel,
    target_connection: ConnectionId,
    purpose: Seq<char>,
    punch_id: Uuid,
    my_host: Seq<char>,
    my_port: u16,
    r: Seq<ActionModel>,
) -> bool {
    &&& unchanged_stores(pre, post)
    &&& match find_by_id(pre.connections@, target_connection.spec_id()) {
        Some(t) => if t.protocol_version < 7 {
            single_send(r, sc, S2CSpec::PunchRequestCancelled { punch_id })
        } else {
            single_send(
                r,
                t,
                S2CSpec::PunchOpenRequest {
                    punch_id,
                    purpose,
                    from_host: my_host,
                    from_port: my_port,
                    connection_id: ConnectionId::spec_new(sc.id),
                    user: Uuid { value: sc.user },
                    security: sender_security(sc),
                },
            )
        },
        None => single_send(r, sc, S2CSpec::PunchRequestCancelled { punch_id }),
    }
}

pub open spec fn post_punch_failed(
    pre: ServerState,
    post: ServerState,
    sc: ConnModel,
    target_connection: ConnectionId,
    punch_id: Uuid,
    r: Seq<ActionModel>,
) -> bool {
    &&& unchanged_stores(pre, post)
    &&& match find_by_id(pre.connections@, target_connection.spec_id()) {
        Some(t) => single_send(r, t, S2CSpec::PunchRequestCancelled { punch_id }),
        None => r.len() == 0,
    }
}

pub open spec fn post_begin_port_lookup(
    pre: ServerState,
    post: ServerState,
    sc: ConnModel,
    lookup_id: Uuid,
    now_ms: u64,
    r: Seq<ActionModel>,
) -> bool {
    &&& post.connections@ == pre.connections@
    &&& post.friend_requests@ == pre.friend_requests@
    &&& r.len() == 0
    &&& post.port_lookups@ == crate::signalling::remove_lookup(pre.port_lookups@, lookup_id).push(
        (
            (now_ms + crate::signalling::PORT_LOOKUP_EXPIRY_MS) as u64,
            crate::signalling::ActivePortLookup {
                lookup_id,
                source_client: ConnectionId::spec_new(sc.id),
            },
        ),
    )
}

pub open spec fn post_punch_success(
    pre: ServerState,
    post: ServerState,
    sc: ConnModel,
    connection_id: ConnectionId,
    punch_id: Uuid,
    host: Seq<char>,
    port: u16,
    r: Seq<ActionModel>,
) -> bool {
    &&& unchanged_stores(pre, post)
    &&& match find_by_id(pre.connections@, connection_id.spec_id()) {
        Some(t) => single_send(r, t, S2CSpec::PunchSuccess { punch_id, host, port }),
        None => r.len() == 0,
    }
}

/// What `handle_message` does for each message kind, given the sender's
/// record: which frames go out, and how the stores change.
pub open spec fn dispatch_post(
    pre: ServerState,
    post: ServerState,
    sc: ConnModel,
    m: crate::messages::C2SSpec,
    d: Seq<Seq<char>>,
    sender_ip: Seq<char>,
    now_ms: u64,
    r: Seq<ActionModel>,
) -> bool {
    match m {
        crate::messages::C2SSpec::ListOnline { friends } => post_list_online(pre, post, sc, friends, r),
        crate::messages::C2SSpec::FriendRequest { to_user } => post_friend_request(pre, post, sc, to_user, r),
        crate::messages::C2SSpec::PublishedWorld { friends } => post_published_world(pre, post, sc, friends, r),
        crate::messages::C2SSpec::ClosedWorld { friends } => post_closed_world(pre, post, sc, friends, r),
        crate::messages::C2SSpec::RequestJoin { friend } => post_request_join(pre, post, sc, friend, r),
        crate::messages::C2SSpec::JoinGranted { connection_id, join_type } => post_join_granted(
            pre, post, sc, connection_id, join_type, d, sender_ip, r,
        ),
        crate::messages::C2SSpec::QueryRequest { friends } => post_query_request(pre, post, sc, friends, r),
        crate::messages::C2SSpec::QueryResponse { connection_id, data } => unchanged_stores(pre, post)
            && query_response_post(pre.connections@, sc, connection_id, data, r),
        crate::messages::C2SSpec::NewQueryResponse { connection_id, data } => unchanged_stores(pre, post)
            && query_response_post(pre.connections@, sc, connection_id, data, r),
        crate::messages::C2SSpec::ProxyS2CPacket { connection_id, data } => post_proxy_packet(
            pre, post, sc, connection_id, data, r,
        ),
        crate::messages::C2SSpec::ProxyDisconnect { connection_id } => post_proxy_disconnect(
            pre, post, sc, connection_id, r,
        ),
        crate::messages::C2SSpec::RequestDirectJoin { connection_id } => post_request_direct_join(
            pre, post, sc, connection_id, r,
        ),
        crate::messages::C2SSpec::RequestPunchOpen {
            target_connection,
            purpose,
            punch_id,
            my_host,
            my_port,
            ..
        } => post_request_punch_open(
            pre, post, sc, target_connection, purpose, punch_id, my_host, my_port, r,
        ),
        crate::messages::C2SSpec::PunchFailed { target_connection, punch_id } => post_punch_failed(
            pre, post, sc, target_connection, punch_id, r,
        ),
        crate::messages::C2SSpec::BeginPortLookup { lookup_id } => post_begin_port_lookup(
            pre, post, sc, lookup_id, now_ms, r,
        ),
        crate::messages::C2SSpec::PunchSuccess { connection_id, punch_id, host, port } => post_punch_success(
            pre, post, sc, connection_id, punch_id, host, port, r,
        ),
    }
}

/// No store changes: registry, friend requests and port lookups keep
/// their contents.
pub open spec fn unchanged_stores(pre: ServerState, post: ServerState) -> bool {
    &&& post.connections@ == pre.connections@
    &&& post.friend_requests@ == pre.friend_requests@
    &&& post.port_lookups@ == pre.port_lookups@
}

/// The forwarding of a query response: nothing for a self-target; for a
/// live target the legacy form below protocol five, the new form from
/// five on.
pub open spec fn query_response_post(
    reg: Seq<ConnModel>,
    sc: ConnModel,
    connection_id: ConnectionId,
    data: Seq<u8>,
    r: Seq<ActionModel>,
) -> bool {
    let user = Uuid { value: sc.user };
    if connection_id.spec_id() == sc.id {
        r.len() == 0
    } else {
        match find_by_id(reg, connection_id.spec_id()) {
            Some(t) => if t.protocol_version < 5 {
                single_send(
                    r,
                    t,
                    S2CSpec::QueryResponse { friend: user, length: data.len() as u32, data },
                )
            } else {
                single_send(r, t, S2CSpec::NewQueryResponse { friend: user, data })
            },
            None => r.len() == 0,
        }
    }
}



fn h_list_online(
    server: &ServerState,
    sender: &Connection,
    sender_id: ConnectionId,
    friends: &Vec<Uuid>,
) -> (r: Vec<Action>)
    requires
        sender@.id == sender_id.spec_id(),
    ensures
        post_list_online(*server, *server, sender@, friends@, actions_view(r@)),
{
    let msg = WorldHostS2CMessage::IsOnlineTo { user: sender.user_uuid };
    let r = broadcast_to_friends(&server.connections, sender_id, friends, &msg);
    proof {
        assert(actions_view(r@) =~= Seq::new(r@.len(), |i: int| r@[i]@));
    }
    r
}

fn h_friend_request(
    server: &mut ServerState,
    sender: &Connection,
    sender_id: ConnectionId,
    to_user: Uuid,
) -> (r: Vec<Action>)
    requires
        old(server).wf(),
        sender@.id == sender_id.spec_id(),
    ensures
        final(server).wf(),
        final(server).config@ == old(server).config@,
        final(server).config.external_servers == old(server).config.external_servers,
        final(server).proxy_targets@ == old(server).proxy_targets@,
        post_friend_request(*old(server), *final(server), sender@, to_user, actions_view(r@)),
{
    let mut out: Vec<Action> = Vec::new();
    let conns = server.connections.by_user_id(to_user);
    if conns.len() > 0 {
        let msg = WorldHostS2CMessage::FriendRequest {
            from_user: sender.user_uuid,
            security: sender.security_level(),
        };
        send_each(&conns, sender_id, &msg, &mut out);
        proof {
            assert(Seq::new(conns@.len(), |i: int| conns@[i]@) == user_conns(
                old(server).connections@,
                to_user.spec_value(),
            ));
            assert(actions_view(out@) =~= Seq::new(out@.len(), |i: int| out@[i]@));
        }
    } else if sender.security_level().is_above_insecure() {
        server.friend_requests.enqueue(sender.user_uuid, to_user);
    }
    out
}

fn h_published_world(
    server: &mut ServerState,
    sender: &Connection,
    sender_id: ConnectionId,
    friends: &Vec<Uuid>,
) -> (r: Vec<Action>)
    requires
        old(server).wf(),
        sender_id.wf(),
        sender@.id == sender_id.spec_id(),
        find_by_id(old(server).connections@, sender_id.spec_id()) == Some(sender@),
    ensures
        final(server).wf(),
        final(server).config@ == old(server).config@,
        final(server).config.external_servers == old(server).config.external_servers,
        final(server).proxy_targets@ == old(server).proxy_targets@,
        post_published_world(*old(server), *final(server), sender@, friends@, actions_view(r@)),
{
    server.connections.publish_friends(sender_id, friends);
    let msg = WorldHostS2CMessage::PublishedWorld {
        user: sender.user_uuid,
        connection_id: sender_id,
        security: sender.security_level(),
    };
    proof {
        ConnectionId::lemma_eq(sender_id, sender_id);
        assert(msg@ == (S2CSpec::PublishedWorld {
            user: Uuid { value: sender@.user },
            connection_id: ConnectionId::spec_new(sender@.id),
            security: sender_security(sender@),
        }));
    }
    let r = broadcast_to_friends(&server.connections, sender_id, friends, &msg);
    proof {
        assert(actions_view(r@) =~= Seq::new(r@.len(), |i: int| r@[i]@));
    }
    r
}

fn h_closed_world(
    server: &mut ServerState,
    sender: &Connection,
    sender_id: ConnectionId,
    friends: &Vec<Uuid>,
) -> (r: Vec<Action>)
    requires
        old(server).wf(),
        sender_id.wf(),
        sender@.id == sender_id.spec_id(),
        find_by_id(old(server).connections@, sender_id.spec_id()) == Some(sender@),
    ensures
        final(server).wf(),
        final(server).config@ == old(server).config@,
        final(server).config.external_servers == old(server).config.external_servers,
        final(server).proxy_targets@ == old(server).proxy_targets@,
        post_closed_world(*old(server), *final(server), sender@, friends@, actions_view(r@)),
{
    server.connections.close_friends(sender_id, friends);
    let msg = WorldHostS2CMessage::ClosedWorld { user: sender.user_uuid };
    proof {
        assert(msg@ == (S2CSpec::ClosedWorld { user: Uuid { value: sender@.user } }));
    }
    let r = broadcast_to_friends(&server.connections, sender_id, friends, &msg);
    proof {
        assert(actions_view(r@) =~= Seq::new(r@.len(), |i: int| r@[i]@));
    }
    r
}

fn h_request_join(
    server: &ServerState,
    sender: &Connection,
    sender_id: ConnectionId,
    friend: Uuid,
) -> (r: Vec<Action>)
    requires
        sender_id.wf(),
        sender@.id == sender_id.spec_id(),
    ensures
        post_request_join(*server, *server, sender@, friend, actions_view(r@)),
{
    let mut out: Vec<Action> = Vec::new();
    if sender.protocol_version >= 4 {
        let msg = WorldHostS2CMessage::Error {
            message: String::from_str(
                "Please use the v4+ RequestDirectJoin message instead of the unsupported RequestJoin message",
            ),
            critical: false,
        };
        send_one(sender, &msg, &mut out);
        proof {
            assert(actions_view(out@).subrange(0, out@.len() as int) =~= actions_view(out@));
        }
    } else {
        let conns = server.connections.by_user_id(friend);
        if conns.len() > 0 {
            let msg = WorldHostS2CMessage::RequestJoin {
                user: sender.user_uuid,
                connection_id: sender_id,
                security: sender.security_level(),
            };
            proof {
                ConnectionId::lemma_eq(sender_id, sender_id);
                assert(Seq::new(conns@.len(), |i: int| conns@[i]@) == user_conns(
                    server.connections@,
                    friend.spec_value(),
                ));
                assert(conns@[conns@.len() - 1]@ == user_conns(
                    server.connections@,
                    friend.spec_value(),
                ).last());
            }
            send_one(&conns[conns.len() - 1], &msg, &mut out);
            proof {
                assert(actions_view(out@).subrange(0, out@.len() as int) =~= actions_view(out@));
            }
        }
    }
    out
}

fn h_join_granted(
    server: &ServerState,
    sender: &Connection,
    sender_id: ConnectionId,
    connection_id: ConnectionId,
    join_type: &JoinType,
    dict: &Dictionary,
    sender_ip: &String,
) -> (r: Vec<Action>)
    requires
        dict_wf(dict@),
        sender_id.wf(),
        sender@.id == sender_id.spec_id(),
    ensures
        post_join_granted(
            *server,
            *server,
            sender@,
            connection_id,
            *join_type,
            dict@,
            sender_ip@,
            actions_view(r@),
        ),
{
    let mut out: Vec<Action> = Vec::new();
    let response = to_online_game(sender, &server.config, dict, join_type, sender_ip);
    match response {
        None => {
            let mut text = String::from_str("This server does not support JoinType ");
            text.append(join_type_name_exec(join_type).as_str());
            let msg = WorldHostS2CMessage::Error { message: text, critical: false };
            send_one(sender, &msg, &mut out);
            proof {
                assert(actions_view(out@).subrange(0, out@.len() as int) =~= actions_view(out@));
            }
        },
        Some(msg) => {
            proof {
                ConnectionId::lemma_eq(connection_id, sender_id);
            }
            if connection_id.raw() != sender_id.raw() {
                match server.connections.by_id(connection_id) {
                    Some(t) => {
                        send_one(t, &msg, &mut out);
                        proof {
                            assert(actions_view(out@).subrange(0, out@.len() as int)
                                =~= actions_view(out@));
                        }
                    },
                    None => {},
                }
            }
        },
    }
    out
}

fn h_query_request(
    server: &ServerState,
    sender: &Connection,
    sender_id: ConnectionId,
    friends: &Vec<Uuid>,
) -> (r: Vec<Action>)
    requires
        sender_id.wf(),
        sender@.id == sender_id.spec_id(),
    ensures
        post_query_request(*server, *server, sender@, friends@, actions_view(r@)),
{
    let msg = WorldHostS2CMessage::QueryRequest {
        friend: sender.user_uuid,
        connection_id: sender_id,
        security: sender.security_level(),
    };
    proof {
        ConnectionId::lemma_eq(sender_id, sender_id);
    }
    let r = broadcast_to_friends(&server.connections, sender_id, friends, &msg);
    proof {
        assert(actions_view(r@) =~= Seq::new(r@.len(), |i: int| r@[i]@));
    }
    r
}

/// Forwards a query response to its target, in the form its protocol
/// version understands.
fn forward_query_response(
    server: &ServerState,
    sender: &Connection,
    connection_id: ConnectionId,
    data: &Vec<u8>,
) -> (r: Vec<Action>)
    ensures
        query_response_post(server.connections@, sender@, connection_id, data@, actions_view(r@)),
{
    let mut out: Vec<Action> = Vec::new();
    proof {
        ConnectionId::lemma_eq(connection_id, sender.id);
    }
    if connection_id.raw() == sender.id.raw() {
        return out;
    }
    match server.connections.by_id(connection_id) {
        Some(t) => {
            if t.protocol_version < 5 {
                if data.len() <= 0xffffff00 {
                    let msg = WorldHostS2CMessage::QueryResponse {
                        friend: sender.user_uuid,
                        length: data.len() as u32,
                        data: clone_bytes(data),
                    };
                    send_one(t, &msg, &mut out);
                    proof {
                        assert(actions_view(out@).subrange(0, out@.len() as int) =~= actions_view(
                            out@,
                        ));
                    }
                } else {
                    proof {
                        assert(!crate::s2c::spec_wf_s2c(
                            S2CSpec::QueryResponse {
                                friend: Uuid { value: sender@.user },
                                length: data@.len() as u32,
                                data: data@,
                            },
                        ));
                    }
                }
            } else {
                let msg = WorldHostS2CMessage::NewQueryResponse {
                    friend: sender.user_uuid,
                    data: clone_bytes(data),
                };
                send_one(t, &msg, &mut out);
                proof {
                    assert(actions_view(out@).subrange(0, out@.len() as int) =~= actions_view(
                        out@,
                    ));
                }
            }
        },
        None => {},
    }
    out
}

fn h_request_direct_join(
    server: &ServerState,
    sender: &Connection,
    sender_id: ConnectionId,
    connection_id: ConnectionId,
) -> (r: Vec<Action>)
    requires
        sender_id.wf(),
        sender@.id == sender_id.spec_id(),
    ensures
        post_request_direct_join(*server, *server, sender@, connection_id, actions_view(r@)),
{
    let mut out: Vec<Action> = Vec::new();
    proof {
        ConnectionId::lemma_eq(connection_id, sender_id);
        ConnectionId::lemma_eq(sender_id, sender_id);
    }
    if connection_id.raw() != sender_id.raw() {
        match server.connections.by_id(connection_id) {
            Some(t) => {
                let msg = WorldHostS2CMessage::RequestJoin {
                    user: sender.user_uuid,
                    connection_id: sender_id,
                    security: sender.security_level(),
                };
                send_one(t, &msg, &mut out);
                proof {
                    assert(actions_view(out@).subrange(0, out@.len() as int) =~= actions_view(
                        out@,
                    ));
                }
                return out;
            },
            None => {},
        }
    }
    let msg = WorldHostS2CMessage::ConnectionNotFound { connection_id };
    send_one(sender, &msg, &mut out);
    proof {
        assert(actions_view(out@).subrange(0, out@.len() as int) =~= actions_view(out@));
    }
    out
}

fn h_request_punch_open(
    server: &ServerState,
    sender: &Connection,
    sender_id: ConnectionId,
    target_connection: ConnectionId,
    purpose: &String,
    punch_id: Uuid,
    my_host: &String,
    my_port: u16,
) -> (r: Vec<Action>)
    requires
        sender_id.wf(),
        sender@.id == sender_id.spec_id(),
    ensures
        post_request_punch_open(
            *server,
            *server,
            sender@,
            target_connection,
            purpose@,
            punch_id,
            my_host@,
            my_port,
            actions_view(r@),
        ),
{
    let mut out: Vec<Action> = Vec::new();
    match server.connections.by_id(target_connection) {
        Some(t) => {
            if t.protocol_version < 7 {
                let msg = WorldHostS2CMessage::PunchRequestCancelled { punch_id };
                send_one(sender, &msg, &mut out);
            } else {
                let msg = WorldHostS2CMessage::PunchOpenRequest {
                    punch_id,
                    purpose: clone_string(purpose),
                    from_host: clone_string(my_host),
                    from_port: my_port,
                    connection_id: sender_id,
                    user: sender.user_uuid,
                    security: sender.security_level(),
                };
                proof {
                    ConnectionId::lemma_eq(sender_id, sender_id);
                }
                send_one(t, &msg, &mut out);
            }
        },
        None => {
            let msg = WorldHostS2CMessage::PunchRequestCancelled { punch_id };
            send_one(sender, &msg, &mut out);
        },
    }
    proof {
        assert(actions_view(out@).subrange(0, out@.len() as int) =~= actions_view(out@));
    }
    out
}

/// Handles one client message: consults and updates the shared state and
/// returns the frames to deliver. An unknown sender produces no effect.
#[verifier::rlimit(100)]
pub fn handle_message(
    server: &mut ServerState,
    sender_id: ConnectionId,
    message: &WorldHostC2SMessage,
    dict: &Dictionary,
    sender_ip: &String,
    now_ms: u64,
) -> (r: Vec<Action>)
    requires
        old(server).wf(),
        sender_id.wf(),
        dict_wf(dict@),
        now_ms + crate::signalling::PORT_LOOKUP_EXPIRY_MS <= u64::MAX,
    ensures
        final(server).wf(),
        final(server).config@ == old(server).config@,
        final(server).proxy_targets@ == old(server).proxy_targets@,
        find_by_id(old(server).connections@, sender_id.spec_id()) is None ==> (r@.len() == 0
            && unchanged_stores(*old(server), *final(server))),
        find_by_id(old(server).connections@, sender_id.spec_id()) matches Some(sc)
            ==> dispatch_post(
            *old(server),
            *final(server),
            sc,
            message@,
            dict@,
            sender_ip@,
            now_ms,
            actions_view(r@),
        ),
{
    let sender = match server.connections.by_id(sender_id) {
        Some(c) => c.clone(),
        None => {
            return Vec::new();
        },
    };
    proof {
        crate::registry::lemma_find_id(server.connections@, sender_id.spec_id());
    }
    match message {
        WorldHostC2SMessage::ListOnline { friends } => h_list_online(
            server,
            &sender,
            sender_id,
            friends,
        ),
        WorldHostC2SMessage::FriendRequest { to_user } => h_friend_request(
            server,
            &sender,
            sender_id,
            *to_user,
        ),
        WorldHostC2SMessage::PublishedWorld { friends } => h_published_world(
            server,
            &sender,
            sender_id,
            friends,
        ),
        WorldHostC2SMessage::ClosedWorld { friends } => h_closed_world(
            server,
            &sender,
            sender_id,
            friends,
        ),
        WorldHostC2SMessage::RequestJoin { friend } => h_request_join(
            server,
            &sender,
            sender_id,
            *friend,
        ),
        WorldHostC2SMessage::JoinGranted { connection_id, join_type } => h_join_granted(
            server,
            &sender,
            sender_id,
            *connection_id,
            join_type,
            dict,
            sender_ip,
        ),
        WorldHostC2SMessage::QueryRequest { friends } => h_query_request(
            server,
            &sender,
            sender_id,
            friends,
        ),
        WorldHostC2SMessage::QueryResponse { connection_id, data } => forward_query_response(
            server,
            &sender,
            *connection_id,
            data,
        ),
        WorldHostC2SMessage::NewQueryResponse { connection_id, data } => forward_query_response(
            server,
            &sender,
            *connection_id,
            data,
        ),
        WorldHostC2SMessage::ProxyS2CPacket { connection_id, data } => {
            let mut out: Vec<Action> = Vec::new();
            match find_proxy_target(&server.proxy_targets, *connection_id) {
                Some(t) => {
                    if t == sender_id.raw() {
                        out.push(
                            Action::ProxyWrite {
                                proxy_id: *connection_id,
                                data: clone_bytes(data),
                            },
                        );
                        proof {
                            assert(actions_view(out@) =~= seq![
                                ActionModel::ProxyWrite { proxy_id: *connection_id, data: data@ },
                            ]);
                        }
                    }
                },
                None => {},
            }
            out
        },
        WorldHostC2SMessage::ProxyDisconnect { connection_id } => {
            let mut out: Vec<Action> = Vec::new();
            match find_proxy_target(&server.proxy_targets, *connection_id) {
                Some(t) => {
                    if t == sender_id.raw() {
                        out.push(Action::ProxyShutdown { proxy_id: *connection_id });
                        proof {
                            assert(actions_view(out@) =~= seq![
                                ActionModel::ProxyShutdown { proxy_id: *connection_id },
                            ]);
                        }
                    }
                },
                None => {},
            }
            out
        },
        WorldHostC2SMessage::RequestDirectJoin { connection_id } => h_request_direct_join(
            server,
            &sender,
            sender_id,
            *connection_id,
        ),
        WorldHostC2SMessage::RequestPunchOpen {
            target_connection,
            purpose,
            punch_id,
            my_host,
            my_port,
            ..
        } => h_request_punch_open(
            server,
            &sender,
            sender_id,
            *target_connection,
            purpose,
            *punch_id,
            my_host,
            *my_port,
        ),
        WorldHostC2SMessage::PunchFailed { target_connection, punch_id } => {
            let mut out: Vec<Action> = Vec::new();
            match server.connections.by_id(*target_connection) {
                Some(t) => {
                    let msg = WorldHostS2CMessage::PunchRequestCancelled { punch_id: *punch_id };
                    send_one(t, &msg, &mut out);
                    proof {
                        assert(actions_view(out@).subrange(0, out@.len() as int) =~= actions_view(
                            out@,
                        ));
                    }
                },
                None => {},
            }
            out
        },
        WorldHostC2SMessage::BeginPortLookup { lookup_id } => {
            server.port_lookups.begin(*lookup_id, sender_id, now_ms);
            proof {
                ConnectionId::lemma_eq(sender_id, sender_id);
            }
            Vec::new()
        },
        WorldHostC2SMessage::PunchSuccess { connection_id, punch_id, host, port } => {
            let mut out: Vec<Action> = Vec::new();
            match server.connections.by_id(*connection_id) {
                Some(t) => {
                    let msg = WorldHostS2CMessage::PunchSuccess {
                        punch_id: *punch_id,
                        host: clone_string(host),
                        port: *port,
                    };
                    send_one(t, &msg, &mut out);
                    proof {
                        assert(actions_view(out@).subrange(0, out@.len() as int) =~= actions_view(
                            out@,
                        ));
                    }
                },
                None => {},
            }
            out
        },
    }
}

} // verus!
