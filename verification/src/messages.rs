//! Client-to-server control-plane messages: the typed union, its wire
//! format, the parser and the encoder.
//!
//! The spec function [`spec_parse_c2s`] is the definition of the wire
//! format: the executable parser returns exactly what it describes, and the
//! executable encoder produces bytes that it maps back to the encoded
//! message.

use vstd::prelude::*;
use vstd::utf8::encode_utf8;
use crate::ids::{ConnectionId, Uuid, MAX_CONNECTION_IDS};
use crate::wire::{
    Reader, be_bytes, enc_string, lemma_be_bytes_len, lemma_pow256_values, lemma_sp_u16_at,
    lemma_sp_u32_at, lemma_sp_u64_at, lemma_sp_u128_at, lemma_sp_u8_at, lemma_sp_string_at,
    pow256, put_bytes, put_string, put_u16, put_u32, put_u64, put_u8, put_u128, sp_string,
    sp_take, sp_u128, sp_u16, sp_u32, sp_u64, sp_u8,
};

verus! {

pub const LIST_ONLINE_ID: u8 = 0;
pub const FRIEND_REQUEST_ID: u8 = 1;
pub const PUBLISHED_WORLD_ID: u8 = 2;
pub const CLOSED_WORLD_ID: u8 = 3;
pub const REQUEST_JOIN_ID: u8 = 4;
pub const JOIN_GRANTED_ID: u8 = 5;
pub const QUERY_REQUEST_ID: u8 = 6;
pub const QUERY_RESPONSE_ID: u8 = 7;
pub const PROXY_S2C_PACKET_ID: u8 = 8;
pub const PROXY_DISCONNECT_ID: u8 = 9;
pub const REQUEST_DIRECT_JOIN_ID: u8 = 10;
pub const NEW_QUERY_RESPONSE_ID: u8 = 11;
pub const REQUEST_PUNCH_OPEN_ID: u8 = 12;
pub const PUNCH_FAILED_ID: u8 = 13;
pub const BEGIN_PORT_LOOKUP_ID: u8 = 14;
pub const PUNCH_SUCCESS_ID: u8 = 15;

/// How a granted join request is to be satisfied.
#[derive(Clone, Copy, Debug, PartialEq, Eq, Structural)]
pub enum JoinType {
    UPnP(u16),
    Proxy,
    Punch,
}

/// A client-to-server message.
#[derive(Clone, Debug)]
pub enum WorldHostC2SMessage {
    ListOnline { friends: Vec<Uuid> },
    FriendRequest { to_user: Uuid },
    PublishedWorld { friends: Vec<Uuid> },
    ClosedWorld { friends: Vec<Uuid> },
    RequestJoin { friend: Uuid },
    JoinGranted { connection_id: ConnectionId, join_type: JoinType },
    QueryRequest { friends: Vec<Uuid> },
    QueryResponse { connection_id: ConnectionId, data: Vec<u8> },
    ProxyS2CPacket { connection_id: u64, data: Vec<u8> },
    ProxyDisconnect { connection_id: u64 },
    RequestDirectJoin { connection_id: ConnectionId },
    NewQueryResponse { connection_id: ConnectionId, data: Vec<u8> },
    RequestPunchOpen {
        target_connection: ConnectionId,
        purpose: String,
        punch_id: Uuid,
        my_host: String,
        my_port: u16,
        my_local_host: String,
        my_local_port: u16,
    },
    PunchFailed { target_connection: ConnectionId, punch_id: Uuid },
    BeginPortLookup { lookup_id: Uuid },
    PunchSuccess { connection_id: ConnectionId, punch_id: Uuid, host: String, port: u16 },
}

/// The mathematical form of a client-to-server message, with sequences in
/// place of vectors and strings.
pub enum C2SSpec {
    ListOnline { friends: Seq<Uuid> },
    FriendRequest { to_user: Uuid },
    PublishedWorld { friends: Seq<Uuid> },
    ClosedWorld { friends: Seq<Uuid> },
    RequestJoin { friend: Uuid },
    JoinGranted { connection_id: ConnectionId, join_type: JoinType },
    QueryRequest { friends: Seq<Uuid> },
    QueryResponse { connection_id: ConnectionId, data: Seq<u8> },
    ProxyS2CPacket { connection_id: u64, data: Seq<u8> },
    ProxyDisconnect { connection_id: u64 },
    RequestDirectJoin { connection_id: ConnectionId },
    NewQueryResponse { connection_id: ConnectionId, data: Seq<u8> },
    RequestPunchOpen {
        target_connection: ConnectionId,
        purpose: Seq<char>,
        punch_id: Uuid,
        my_host: Seq<char>,
        my_port: u16,
        my_local_host: Seq<char>,
        my_local_port: u16,
    },
    PunchFailed { target_connection: ConnectionId, punch_id: Uuid },
    BeginPortLookup { lookup_id: Uuid },
    PunchSuccess { connection_id: ConnectionId, punch_id: Uuid, host: Seq<char>, port: u16 },
}

impl View for WorldHostC2SMessage {
    type V = C2SSpec;

    open spec fn view(&self) -> C2SSpec {
        match self {
            WorldHostC2SMessage::ListOnline { friends } => C2SSpec::ListOnline {
                friends: friends@,
            },
            WorldHostC2SMessage::FriendRequest { to_user } => C2SSpec::FriendRequest {
                to_user: *to_user,
            },
            WorldHostC2SMessage::PublishedWorld { friends } => C2SSpec::PublishedWorld {
                friends: friends@,
            },
            WorldHostC2SMessage::ClosedWorld { friends } => C2SSpec::ClosedWorld {
                friends: friends@,
            },
            WorldHostC2SMessage::RequestJoin { friend } => C2SSpec::RequestJoin {
                friend: *friend,
            },
            WorldHostC2SMessage::JoinGranted { connection_id, join_type } => C2SSpec::JoinGranted {
                connection_id: *connection_id,
                join_type: *join_type,
            },
            WorldHostC2SMessage::QueryRequest { friends } => C2SSpec::QueryRequest {
                friends: friends@,
            },
            WorldHostC2SMessage::QueryResponse { connection_id, data } => C2SSpec::QueryResponse {
                connection_id: *connection_id,
                data: data@,
            },
            WorldHostC2SMessage::ProxyS2CPacket { connection_id, data } => C2SSpec::ProxyS2CPacket {
                connection_id: *connection_id,
                data: data@,
            },
            WorldHostC2SMessage::ProxyDisconnect { connection_id } => C2SSpec::ProxyDisconnect {
                connection_id: *connection_id,
            },
            WorldHostC2SMessage::RequestDirectJoin { connection_id } => C2SSpec::RequestDirectJoin {
                connection_id: *connection_id,
            },
            WorldHostC2SMessage::NewQueryResponse { connection_id, data } => C2SSpec::NewQueryResponse {
                connection_id: *connection_id,
                data: data@,
            },
            WorldHostC2SMessage::RequestPunchOpen {
                target_connection,
                purpose,
                punch_id,
                my_host,
                my_port,
                my_local_host,
                my_local_port,
            } => C2SSpec::RequestPunchOpen {
                target_connection: *target_connection,
                purpose: purpose@,
                punch_id: *punch_id,
                my_host: my_host@,
                my_port: *my_port,
                my_local_host: my_local_host@,
                my_local_port: *my_local_port,
            },
            WorldHostC2SMessage::PunchFailed { target_connection, punch_id } => C2SSpec::PunchFailed {
                target_connection: *target_connection,
                punch_id: *punch_id,
            },
            WorldHostC2SMessage::BeginPortLookup { lookup_id } => C2SSpec::BeginPortLookup {
                lookup_id: *lookup_id,
            },
            WorldHostC2SMessage::PunchSuccess { connection_id, punch_id, host, port } => C2SSpec::PunchSuccess {
                connection_id: *connection_id,
                punch_id: *punch_id,
                host: host@,
                port: *port,
            },
        }
    }
}

/// Reads a connection identifier: a big-endian 64-bit value that must lie
/// below `MAX_CONNECTION_IDS`.
pub open spec fn sp_cid(s: Seq<u8>, i: int) -> Option<(ConnectionId, int)> {
    match sp_u64(s, i) {
        Some((v, j)) => if v < MAX_CONNECTION_IDS {
            Some((ConnectionId::spec_new(v), j))
        } else {
            None
        },
        None => None,
    }
}

/// Reads a 128-bit identifier.
pub open spec fn sp_uuid(s: Seq<u8>, i: int) -> Option<(Uuid, int)> {
    match sp_u128(s, i) {
        Some((v, j)) => Some((Uuid { value: v }, j)),
        None => None,
    }
}

/// Reads `cnt` consecutive 128-bit identifiers.
pub open spec fn sp_uuids(s: Seq<u8>, i: int, cnt: nat) -> Option<(Seq<Uuid>, int)>
    decreases cnt,
{
    if cnt == 0 {
        Some((Seq::empty(), i))
    } else {
        match sp_uuid(s, i) {
            Some((u, j)) => match sp_uuids(s, j, (cnt - 1) as nat) {
                Some((rest, k)) => Some((seq![u] + rest, k)),
                None => None,
            },
            None => None,
        }
    }
}

/// Reads a 32-bit count followed by that many identifiers.
pub open spec fn sp_uuid_list(s: Seq<u8>, i: int) -> Option<(Seq<Uuid>, int)> {
    match sp_u32(s, i) {
        Some((cnt, j)) => sp_uuids(s, j, cnt as nat),
        None => None,
    }
}

/// Reads a join type: a one-byte tag, with a trailing 16-bit port for UPnP.
pub open spec fn sp_join_type(s: Seq<u8>, i: int) -> Option<(JoinType, int)> {
    match sp_u8(s, i) {
        Some((t, j)) => if t == 0 {
            match sp_u16(s, j) {
                Some((p, k)) => Some((JoinType::UPnP(p), k)),
                None => None,
            }
        } else if t == 1 {
            Some((JoinType::Proxy, j))
        } else if t == 2 {
            Some((JoinType::Punch, j))
        } else {
            None
        },
        None => None,
    }
}

/// The remainder of the payload from offset `i`.
pub open spec fn sp_rest(s: Seq<u8>, i: int) -> Seq<u8> {
    s.subrange(i, s.len() as int)
}

/// The protocol version in which the client-to-server message with the
/// given type identifier was introduced, or `None` for an unknown type.
pub open spec fn spec_first_protocol_version(id: u8) -> Option<u32> {
    if id == LIST_ONLINE_ID || id == FRIEND_REQUEST_ID || id == PUBLISHED_WORLD_ID
        || id == CLOSED_WORLD_ID || id == REQUEST_JOIN_ID || id == JOIN_GRANTED_ID
        || id == QUERY_REQUEST_ID || id == QUERY_RESPONSE_ID || id == PROXY_S2C_PACKET_ID
        || id == PROXY_DISCONNECT_ID {
        Some(2)
    } else if id == REQUEST_DIRECT_JOIN_ID {
        Some(4)
    } else if id == NEW_QUERY_RESPONSE_ID {
        Some(5)
    } else if id == REQUEST_PUNCH_OPEN_ID || id == PUNCH_FAILED_ID || id == BEGIN_PORT_LOOKUP_ID
        || id == PUNCH_SUCCESS_ID {
        Some(7)
    } else {
        None
    }
}

pub fn first_protocol_version(id: u8) -> (r: Option<u32>)
    ensures
        r == spec_first_protocol_version(id),
{
    match id {
        LIST_ONLINE_ID | FRIEND_REQUEST_ID | PUBLISHED_WORLD_ID | CLOSED_WORLD_ID
            | REQUEST_JOIN_ID | JOIN_GRANTED_ID | QUERY_REQUEST_ID | QUERY_RESPONSE_ID
            | PROXY_S2C_PACKET_ID | PROXY_DISCONNECT_ID => Some(2),
        REQUEST_DIRECT_JOIN_ID => Some(4),
        NEW_QUERY_RESPONSE_ID => Some(5),
        REQUEST_PUNCH_OPEN_ID | PUNCH_FAILED_ID | BEGIN_PORT_LOOKUP_ID | PUNCH_SUCCESS_ID => Some(
            7,
        ),
        _ => None,
    }
}

/// What the payload bytes of a message with the given type identifier
/// parse to, or `None` when they are malformed.
pub open spec fn spec_parse_c2s(id: u8, s: Seq<u8>) -> Option<C2SSpec> {
    if id == LIST_ONLINE_ID {
        match sp_uuid_list(s, 0) {
            Some((friends, _)) => Some(C2SSpec::ListOnline { friends }),
            None => None,
        }
    } else if id == FRIEND_REQUEST_ID {
        match sp_uuid(s, 0) {
            Some((to_user, _)) => Some(C2SSpec::FriendRequest { to_user }),
            None => None,
        }
    } else if id == PUBLISHED_WORLD_ID {
        match sp_uuid_list(s, 0) {
            Some((friends, _)) => Some(C2SSpec::PublishedWorld { friends }),
            None => None,
        }
    } else if id == CLOSED_WORLD_ID {
        match sp_uuid_list(s, 0) {
            Some((friends, _)) => Some(C2SSpec::ClosedWorld { friends }),
            None => None,
        }
    } else if id == REQUEST_JOIN_ID {
        match sp_uuid(s, 0) {
            Some((friend, _)) => Some(C2SSpec::RequestJoin { friend }),
            None => None,
        }
    } else if id == JOIN_GRANTED_ID {
        match sp_cid(s, 0) {
            Some((connection_id, i)) => match sp_join_type(s, i) {
                Some((join_type, _)) => Some(C2SSpec::JoinGranted { connection_id, join_type }),
                None => None,
            },
            None => None,
        }
    } else if id == QUERY_REQUEST_ID {
        match sp_uuid_list(s, 0) {
            Some((friends, _)) => Some(C2SSpec::QueryRequest { friends }),
            None => None,
        }
    } else if id == QUERY_RESPONSE_ID {
        match sp_cid(s, 0) {
            Some((connection_id, i)) => match sp_u32(s, i) {
                Some((len, j)) => match sp_take(s, j, len as int) {
                    Some((data, _)) => Some(C2SSpec::QueryResponse { connection_id, data }),
                    None => None,
                },
                None => None,
            },
            None => None,
        }
    } else if id == PROXY_S2C_PACKET_ID {
        match sp_u64(s, 0) {
            Some((connection_id, i)) => Some(C2SSpec::ProxyS2CPacket {
                connection_id,
                data: sp_rest(s, i),
            }),
            None => None,
        }
    } else if id == PROXY_DISCONNECT_ID {
        match sp_u64(s, 0) {
            Some((connection_id, _)) => Some(C2SSpec::ProxyDisconnect { connection_id }),
            None => None,
        }
    } else if id == REQUEST_DIRECT_JOIN_ID {
        match sp_cid(s, 0) {
            Some((connection_id, _)) => Some(C2SSpec::RequestDirectJoin { connection_id }),
            None => None,
        }
    } else if id == NEW_QUERY_RESPONSE_ID {
        match sp_cid(s, 0) {
            Some((connection_id, i)) => Some(C2SSpec::NewQueryResponse {
                connection_id,
                data: sp_rest(s, i),
            }),
            None => None,
        }
    } else if id == REQUEST_PUNCH_OPEN_ID {
        match sp_cid(s, 0) {
            Some((target_connection, i1)) => match sp_string(s, i1) {
                Some((purpose, i2)) => match sp_uuid(s, i2) {
                    Some((punch_id, i3)) => match sp_string(s, i3) {
                        Some((my_host, i4)) => match sp_u16(s, i4) {
                            Some((my_port, i5)) => match sp_string(s, i5) {
                                Some((my_local_host, i6)) => match sp_u16(s, i6) {
                                    Some((my_local_port, _)) => Some(C2SSpec::RequestPunchOpen {
                                        target_connection,
                                        purpose,
                                        punch_id,
                                        my_host,
                                        my_port,
                                        my_local_host,
                                        my_local_port,
                                    }),
                                    None => None,
                                },
                                None => None,
                            },
                            None => None,
                        },
                        None => None,
                    },
                    None => None,
                },
                None => None,
            },
            None => None,
        }
    } else if id == PUNCH_FAILED_ID {
        match sp_cid(s, 0) {
            Some((target_connection, i)) => match sp_uuid(s, i) {
                Some((punch_id, _)) => Some(C2SSpec::PunchFailed { target_connection, punch_id }),
                None => None,
            },
            None => None,
        }
    } else if id == BEGIN_PORT_LOOKUP_ID {
        match sp_uuid(s, 0) {
            Some((lookup_id, _)) => Some(C2SSpec::BeginPortLookup { lookup_id }),
            None => None,
        }
    } else if id == PUNCH_SUCCESS_ID {
        match sp_cid(s, 0) {
            Some((connection_id, i1)) => match sp_uuid(s, i1) {
                Some((punch_id, i2)) => match sp_string(s, i2) {
                    Some((host, i3)) => match sp_u16(s, i3) {
                        Some((port, _)) => Some(C2SSpec::PunchSuccess {
                            connection_id,
                            punch_id,
                            host,
                            port,
                        }),
                        None => None,
                    },
                    None => None,
                },
                None => None,
            },
            None => None,
        }
    } else {
        None
    }
}

impl WorldHostC2SMessage {
    /// Parses a message payload, first refusing unknown type identifiers
    /// and types newer than the client's negotiated protocol version.
    pub fn parse(id: u8, data: &[u8], max_protocol_version: Option<u32>) -> (r: Result<
        WorldHostC2SMessage,
        String,
    >)
        ensures
            spec_first_protocol_version(id) is None ==> r is Err,
            spec_first_protocol_version(id) matches Some(fp) ==> (
                (max_protocol_version matches Some(mp) && fp > mp) ==> r is Err
            ),
            spec_first_protocol_version(id) matches Some(fp) ==> (
                (max_protocol_version matches Some(mp) ==> fp <= mp) ==> {
                    &&& (r is Ok <==> spec_parse_c2s(id, data@) is Some)
                    &&& (r matches Ok(m) ==> Some(m@) == spec_parse_c2s(id, data@))
                }
            ),
    {
        let first_protocol = first_protocol_version(id);
        let first_protocol = match first_protocol {
            Some(fp) => fp,
            None => {
                let mut m = String::from_str("Received message with unknown typeId from client: ");
                m.append(crate::text::u64_to_string(id as u64).as_str());
                return Err(m);
            },
        };
        if let Some(max_protocol) = max_protocol_version {
            if first_protocol > max_protocol {
                let mut m = String::from_str(
                    "Received too new message from client. Client has version ",
                );
                m.append(crate::text::u64_to_string(max_protocol as u64).as_str());
                m.append(", but message ID ");
                m.append(crate::text::u64_to_string(id as u64).as_str());
                m.append(" was added in ");
                m.append(crate::text::u64_to_string(first_protocol as u64).as_str());
                m.append(".");
                return Err(m);
            }
        }
        Self::parse_raw(id, data)
    }

    /// Parses a message payload with the given type identifier.
    pub fn parse_raw(id: u8, data: &[u8]) -> (r: Result<WorldHostC2SMessage, String>)
        ensures
            r is Ok <==> spec_parse_c2s(id, data@) is Some,
            r matches Ok(m) ==> Some(m@) == spec_parse_c2s(id, data@),
    {
        let mut rd = Reader::new(data);
        match id {
            LIST_ONLINE_ID => {
                let friends = read_uuid_vec(&mut rd)?;
                Ok(WorldHostC2SMessage::ListOnline { friends })
            },
            FRIEND_REQUEST_ID => {
                let to_user = read_uuid(&mut rd)?;
                Ok(WorldHostC2SMessage::FriendRequest { to_user })
            },
            PUBLISHED_WORLD_ID => {
                let friends = read_uuid_vec(&mut rd)?;
                Ok(WorldHostC2SMessage::PublishedWorld { friends })
            },
            CLOSED_WORLD_ID => {
                let friends = read_uuid_vec(&mut rd)?;
                Ok(WorldHostC2SMessage::ClosedWorld { friends })
            },
            REQUEST_JOIN_ID => {
                let friend = read_uuid(&mut rd)?;
                Ok(WorldHostC2SMessage::RequestJoin { friend })
            },
            JOIN_GRANTED_ID => {
                let connection_id = read_connection_id(&mut rd)?;
                let join_type = decode_join_type(&mut rd)?;
                Ok(WorldHostC2SMessage::JoinGranted { connection_id, join_type })
            },
            QUERY_REQUEST_ID => {
                let friends = read_uuid_vec(&mut rd)?;
                Ok(WorldHostC2SMessage::QueryRequest { friends })
            },
            QUERY_RESPONSE_ID => {
                let connection_id = read_connection_id(&mut rd)?;
                let len = rd.get_u32()?;
                let data = rd.take(len as usize)?;
                Ok(WorldHostC2SMessage::QueryResponse { connection_id, data })
            },
            PROXY_S2C_PACKET_ID => {
                let connection_id = rd.get_u64()?;
                let data = rd.rest();
                Ok(WorldHostC2SMessage::ProxyS2CPacket { connection_id, data })
            },
            PROXY_DISCONNECT_ID => {
                let connection_id = rd.get_u64()?;
                Ok(WorldHostC2SMessage::ProxyDisconnect { connection_id })
            },
            REQUEST_DIRECT_JOIN_ID => {
                let connection_id = read_connection_id(&mut rd)?;
                Ok(WorldHostC2SMessage::RequestDirectJoin { connection_id })
            },
            NEW_QUERY_RESPONSE_ID => {
                let connection_id = read_connection_id(&mut rd)?;
                let data = rd.rest();
                Ok(WorldHostC2SMessage::NewQueryResponse { connection_id, data })
            },
            REQUEST_PUNCH_OPEN_ID => {
                let target_connection = read_connection_id(&mut rd)?;
                let purpose = rd.get_string()?;
                let punch_id = read_uuid(&mut rd)?;
                let my_host = rd.get_string()?;
                let my_port = rd.get_u16()?;
                let my_local_host = rd.get_string()?;
                let my_local_port = rd.get_u16()?;
                Ok(WorldHostC2SMessage::RequestPunchOpen {
                    target_connection,
                    purpose,
                    punch_id,
                    my_host,
                    my_port,
                    my_local_host,
                    my_local_port,
                })
            },
            PUNCH_FAILED_ID => {
                let target_connection = read_connection_id(&mut rd)?;
                let punch_id = read_uuid(&mut rd)?;
                Ok(WorldHostC2SMessage::PunchFailed { target_connection, punch_id })
            },
            BEGIN_PORT_LOOKUP_ID => {
                let lookup_id = read_uuid(&mut rd)?;
                Ok(WorldHostC2SMessage::BeginPortLookup { lookup_id })
            },
            PUNCH_SUCCESS_ID => {
                let connection_id = read_connection_id(&mut rd)?;
                let punch_id = read_uuid(&mut rd)?;
                let host = rd.get_string()?;
                let port = rd.get_u16()?;
                Ok(WorldHostC2SMessage::PunchSuccess { connection_id, punch_id, host, port })
            },
            _ => {
                let mut m = String::from_str("Unknown message ID ");
                m.append(crate::text::u64_to_string(id as u64).as_str());
                Err(m)
            },
        }
    }
}

fn read_uuid(rd: &mut Reader<'_>) -> (r: Result<Uuid, String>)
    requires
        old(rd).wf(),
    ensures
        final(rd).wf(),
        final(rd).spec_data() == old(rd).spec_data(),
        match sp_uuid(old(rd).spec_data(), old(rd).spec_pos()) {
            Some(p) => r matches Ok(v) && v == p.0 && final(rd).spec_pos() == p.1,
            None => r is Err,
        },
{
    let v = rd.get_u128()?;
    Ok(Uuid::new(v))
}

fn read_connection_id(rd: &mut Reader<'_>) -> (r: Result<ConnectionId, String>)
    requires
        old(rd).wf(),
    ensures
        final(rd).wf(),
        final(rd).spec_data() == old(rd).spec_data(),
        match sp_cid(old(rd).spec_data(), old(rd).spec_pos()) {
            Some(p) => r matches Ok(v) && v == p.0 && final(rd).spec_pos() == p.1,
            None => r is Err,
        },
{
    let v = rd.get_u64()?;
    match ConnectionId::new(v) {
        Ok(c) => Ok(c),
        Err(e) => Err(e),
    }
}

fn decode_join_type(rd: &mut Reader<'_>) -> (r: Result<JoinType, String>)
    requires
        old(rd).wf(),
    ensures
        final(rd).wf(),
        final(rd).spec_data() == old(rd).spec_data(),
        match sp_join_type(old(rd).spec_data(), old(rd).spec_pos()) {
            Some(p) => r matches Ok(v) && v == p.0 && final(rd).spec_pos() == p.1,
            None => r is Err,
        },
{
    let t = rd.get_u8()?;
    match t {
        0 => {
            let p = rd.get_u16()?;
            Ok(JoinType::UPnP(p))
        },
        1 => Ok(JoinType::Proxy),
        2 => Ok(JoinType::Punch),
        _ => {
            let mut m = String::from_str("Received packet with unknown joinTypeId from client: ");
            m.append(crate::text::u64_to_string(t as u64).as_str());
            Err(m)
        },
    }
}

#[verifier::loop_isolation(false)]
fn read_uuid_vec(rd: &mut Reader<'_>) -> (r: Result<Vec<Uuid>, String>)
    requires
        old(rd).wf(),
    ensures
        final(rd).wf(),
        final(rd).spec_data() == old(rd).spec_data(),
        match sp_uuid_list(old(rd).spec_data(), old(rd).spec_pos()) {
            Some(p) => r matches Ok(v) && v@ == p.0 && final(rd).spec_pos() == p.1,
            None => r is Err,
        },
{
    let ghost s = old(rd).spec_data();
    let cnt = rd.get_u32()?;
    let ghost start = rd.spec_pos();
    let mut out: Vec<Uuid> = Vec::new();
    let mut k: u32 = 0;
    proof {
        if sp_uuids(s, start, cnt as nat) is Some {
            let p = sp_uuids(s, start, cnt as nat)->Some_0;
            assert(Seq::<Uuid>::empty() + p.0 =~= p.0);
        }
    }
    while k < cnt
        invariant
            rd.wf(),
            s == rd.spec_data(),
            k <= cnt,
            out@.len() == k as nat,
            sp_uuids(s, start, cnt as nat) == match sp_uuids(s, rd.spec_pos(), (cnt - k) as nat) {
                Some(p) => Some(((out@ + p.0), p.1)),
                None => None::<(Seq<Uuid>, int)>,
            },
        decreases cnt - k,
    {
        let ghost pos_before = rd.spec_pos();
        let ghost rem = (cnt - k) as nat;
        let u = match read_uuid(rd) {
            Ok(u) => u,
            Err(e) => {
                proof {
                    assert(sp_uuids(s, pos_before, rem) is None);
                }
                return Err(e);
            },
        };
        proof {
            let p = sp_uuid(s, pos_before)->Some_0;
            assert(sp_uuids(s, pos_before, rem) == match sp_uuids(s, p.1, (rem - 1) as nat) {
                Some(q) => Some(((seq![p.0] + q.0), q.1)),
                None => None::<(Seq<Uuid>, int)>,
            });
            if sp_uuids(s, p.1, (rem - 1) as nat) is Some {
                let q = sp_uuids(s, p.1, (rem - 1) as nat)->Some_0;
                assert(out@ + (seq![p.0] + q.0) =~= (out@ + seq![p.0]) + q.0);
            }
            assert(out@.push(u) =~= out@ + seq![u]);
        }
        out.push(u);
        k += 1;
    }
    proof {
        assert(sp_uuids(s, rd.spec_pos(), 0) == Some((Seq::<Uuid>::empty(), rd.spec_pos())));
        assert(out@ + Seq::<Uuid>::empty() =~= out@);
    }
    Ok(out)
}


/// The wire encoding of a sequence of 128-bit identifiers.
pub open spec fn enc_uuids(us: Seq<Uuid>) -> Seq<u8>
    decreases us.len(),
{
    if us.len() == 0 {
        seq![]
    } else {
        be_bytes(us[0].value as nat, 16) + enc_uuids(us.drop_first())
    }
}

pub proof fn lemma_enc_uuids_len(us: Seq<Uuid>)
    ensures
        enc_uuids(us).len() == 16 * us.len(),
    decreases us.len(),
{
    if us.len() > 0 {
        lemma_be_bytes_len(us[0].value as nat, 16);
        lemma_enc_uuids_len(us.drop_first());
    }
}

pub proof fn lemma_enc_uuids_push(us: Seq<Uuid>, u: Uuid)
    ensures
        enc_uuids(us.push(u)) == enc_uuids(us) + be_bytes(u.value as nat, 16),
    decreases us.len(),
{
    if us.len() == 0 {
        assert(us.push(u)[0] == u);
        assert(us.push(u).drop_first() =~= Seq::<Uuid>::empty());
        assert(enc_uuids(Seq::<Uuid>::empty()) =~= Seq::<u8>::empty());
        assert(enc_uuids(us.push(u)) == be_bytes(u.value as nat, 16) + enc_uuids(
            Seq::<Uuid>::empty(),
        ));
        assert(be_bytes(u.value as nat, 16) + Seq::<u8>::empty() =~= be_bytes(u.value as nat, 16));
        assert(enc_uuids(us) + be_bytes(u.value as nat, 16) =~= be_bytes(u.value as nat, 16));
    } else {
        assert(us.push(u)[0] == us[0]);
        assert(us.push(u).drop_first() =~= us.drop_first().push(u));
        lemma_enc_uuids_push(us.drop_first(), u);
        assert(be_bytes(us[0].value as nat, 16) + (enc_uuids(us.drop_first()) + be_bytes(
            u.value as nat,
            16,
        )) =~= (be_bytes(us[0].value as nat, 16) + enc_uuids(us.drop_first())) + be_bytes(
            u.value as nat,
            16,
        ));
    }
}

pub proof fn lemma_sp_uuids_at(s: Seq<u8>, i: int, us: Seq<Uuid>)
    requires
        0 <= i,
        i + 16 * us.len() <= s.len(),
        s.subrange(i, i + 16 * us.len()) =~= enc_uuids(us),
    ensures
        sp_uuids(s, i, us.len()) == Some((us, i + 16 * us.len())),
    decreases us.len(),
{
    lemma_enc_uuids_len(us);
    if us.len() == 0 {
        assert(sp_uuids(s, i, 0) == Some((Seq::<Uuid>::empty(), i)));
        assert(us =~= Seq::<Uuid>::empty());
    } else {
        let head = be_bytes(us[0].value as nat, 16);
        lemma_be_bytes_len(us[0].value as nat, 16);
        let tail = enc_uuids(us.drop_first());
        lemma_enc_uuids_len(us.drop_first());
        assert forall|j: int| 0 <= j < 16 * us.len() implies s[i + j] == enc_uuids(us)[j] by {
            assert(s.subrange(i, i + 16 * us.len())[j] == s[i + j]);
        }
        assert(s.subrange(i, i + 16) =~= head);
        lemma_sp_u128_at(s, i, us[0].value);
        lemma_pow256_values();
        assert(sp_uuid(s, i) == Some((us[0], i + 16))) by {
            assert(Uuid { value: us[0].value } == us[0]);
        }
        assert(s.subrange(i + 16, i + 16 + 16 * us.drop_first().len()) =~= tail) by {
            assert forall|j: int| 0 <= j < 16 * us.drop_first().len() implies s.subrange(
                i + 16,
                i + 16 + 16 * us.drop_first().len(),
            )[j] == tail[j] by {
                assert(s[i + (16 + j)] == enc_uuids(us)[16 + j]);
            }
        }
        lemma_sp_uuids_at(s, i + 16, us.drop_first());
        assert(seq![us[0]] + us.drop_first() =~= us);
    }
}

/// The wire encoding of an identifier list: a 32-bit count, then the
/// identifiers.
pub open spec fn enc_uuid_list(us: Seq<Uuid>) -> Seq<u8> {
    be_bytes(us.len(), 4) + enc_uuids(us)
}

pub proof fn lemma_sp_uuid_list_at(s: Seq<u8>, i: int, us: Seq<Uuid>)
    requires
        0 <= i,
        us.len() <= 0xffffffff,
        i + enc_uuid_list(us).len() <= s.len(),
        s.subrange(i, i + enc_uuid_list(us).len()) =~= enc_uuid_list(us),
    ensures
        sp_uuid_list(s, i) == Some((us, i + enc_uuid_list(us).len())),
{
    lemma_be_bytes_len(us.len(), 4);
    lemma_enc_uuids_len(us);
    let enc = enc_uuid_list(us);
    assert forall|j: int| 0 <= j < enc.len() implies s[i + j] == enc[j] by {
        assert(s.subrange(i, i + enc.len())[j] == enc[j]);
    }
    assert(s.subrange(i, i + 4) =~= be_bytes(us.len(), 4));
    lemma_pow256_values();
    lemma_sp_u32_at(s, i, us.len() as u32);
    assert(s.subrange(i + 4, i + 4 + 16 * us.len()) =~= enc_uuids(us)) by {
        assert forall|j: int| 0 <= j < 16 * us.len() implies s.subrange(
            i + 4,
            i + 4 + 16 * us.len(),
        )[j] == enc_uuids(us)[j] by {
            assert(s[i + (4 + j)] == enc[4 + j]);
        }
    }
    lemma_sp_uuids_at(s, i + 4, us);
}

fn put_uuid_vec(out: &mut Vec<u8>, us: &Vec<Uuid>)
    requires
        us@.len() <= 0xffffffff,
    ensures
        final(out)@ == old(out)@ + enc_uuid_list(us@),
{
    put_u32(out, us.len() as u32);
    let ghost base = out@;
    let mut k: usize = 0;
    proof {
        assert(enc_uuids(us@.subrange(0, 0)) =~= Seq::<u8>::empty());
        assert(base + Seq::<u8>::empty() =~= base);
    }
    while k < us.len()
        invariant
            k <= us@.len(),
            us@.len() <= 0xffffffff,
            out@ == base + enc_uuids(us@.subrange(0, k as int)),
        decreases us@.len() - k,
    {
        put_u128(out, us[k].raw());
        proof {
            lemma_enc_uuids_push(us@.subrange(0, k as int), us@[k as int]);
            assert(us@.subrange(0, k as int).push(us@[k as int]) =~= us@.subrange(0, k + 1));
            assert((base + enc_uuids(us@.subrange(0, k as int))) + be_bytes(
                us@[k as int].value as nat,
                16,
            ) =~= base + (enc_uuids(us@.subrange(0, k as int)) + be_bytes(
                us@[k as int].value as nat,
                16,
            )));
        }
        k += 1;
    }
    proof {
        assert(us@.subrange(0, us@.len() as int) =~= us@);
        assert(old(out)@ + be_bytes(us@.len(), 4) + enc_uuids(us@) =~= old(out)@ + enc_uuid_list(
            us@,
        ));
    }
}

impl WorldHostC2SMessage {
    /// The wire type identifier of the message.
    pub open spec fn spec_type_id(&self) -> u8 {
        match self {
            WorldHostC2SMessage::ListOnline { .. } => LIST_ONLINE_ID,
            WorldHostC2SMessage::FriendRequest { .. } => FRIEND_REQUEST_ID,
            WorldHostC2SMessage::PublishedWorld { .. } => PUBLISHED_WORLD_ID,
            WorldHostC2SMessage::ClosedWorld { .. } => CLOSED_WORLD_ID,
            WorldHostC2SMessage::RequestJoin { .. } => REQUEST_JOIN_ID,
            WorldHostC2SMessage::JoinGranted { .. } => JOIN_GRANTED_ID,
            WorldHostC2SMessage::QueryRequest { .. } => QUERY_REQUEST_ID,
            WorldHostC2SMessage::QueryResponse { .. } => QUERY_RESPONSE_ID,
            WorldHostC2SMessage::ProxyS2CPacket { .. } => PROXY_S2C_PACKET_ID,
            WorldHostC2SMessage::ProxyDisconnect { .. } => PROXY_DISCONNECT_ID,
            WorldHostC2SMessage::RequestDirectJoin { .. } => REQUEST_DIRECT_JOIN_ID,
            WorldHostC2SMessage::NewQueryResponse { .. } => NEW_QUERY_RESPONSE_ID,
            WorldHostC2SMessage::RequestPunchOpen { .. } => REQUEST_PUNCH_OPEN_ID,
            WorldHostC2SMessage::PunchFailed { .. } => PUNCH_FAILED_ID,
            WorldHostC2SMessage::BeginPortLookup { .. } => BEGIN_PORT_LOOKUP_ID,
            WorldHostC2SMessage::PunchSuccess { .. } => PUNCH_SUCCESS_ID,
        }
    }

    pub fn type_id(&self) -> (r: u8)
        ensures
            r == self.spec_type_id(),
    {
        match self {
            WorldHostC2SMessage::ListOnline { .. } => LIST_ONLINE_ID,
            WorldHostC2SMessage::FriendRequest { .. } => FRIEND_REQUEST_ID,
            WorldHostC2SMessage::PublishedWorld { .. } => PUBLISHED_WORLD_ID,
            WorldHostC2SMessage::ClosedWorld { .. } => CLOSED_WORLD_ID,
            WorldHostC2SMessage::RequestJoin { .. } => REQUEST_JOIN_ID,
            WorldHostC2SMessage::JoinGranted { .. } => JOIN_GRANTED_ID,
            WorldHostC2SMessage::QueryRequest { .. } => QUERY_REQUEST_ID,
            WorldHostC2SMessage::QueryResponse { .. } => QUERY_RESPONSE_ID,
            WorldHostC2SMessage::ProxyS2CPacket { .. } => PROXY_S2C_PACKET_ID,
            WorldHostC2SMessage::ProxyDisconnect { .. } => PROXY_DISCONNECT_ID,
            WorldHostC2SMessage::RequestDirectJoin { .. } => REQUEST_DIRECT_JOIN_ID,
            WorldHostC2SMessage::NewQueryResponse { .. } => NEW_QUERY_RESPONSE_ID,
            WorldHostC2SMessage::RequestPunchOpen { .. } => REQUEST_PUNCH_OPEN_ID,
            WorldHostC2SMessage::PunchFailed { .. } => PUNCH_FAILED_ID,
            WorldHostC2SMessage::BeginPortLookup { .. } => BEGIN_PORT_LOOKUP_ID,
            WorldHostC2SMessage::PunchSuccess { .. } => PUNCH_SUCCESS_ID,
        }
    }

    /// Size limits the wire format imposes: list counts fit in 32 bits and
    /// string bytes fit in 16 bits.
    pub open spec fn wf(&self) -> bool {
        match self {
            WorldHostC2SMessage::ListOnline { friends } => friends@.len() <= 0xffffffff,
            WorldHostC2SMessage::PublishedWorld { friends } => friends@.len() <= 0xffffffff,
            WorldHostC2SMessage::ClosedWorld { friends } => friends@.len() <= 0xffffffff,
            WorldHostC2SMessage::QueryRequest { friends } => friends@.len() <= 0xffffffff,
            WorldHostC2SMessage::JoinGranted { connection_id, .. } => connection_id.wf(),
            WorldHostC2SMessage::QueryResponse { connection_id, data } => connection_id.wf()
                && data@.len() <= 0xffffffff,
            WorldHostC2SMessage::RequestDirectJoin { connection_id } => connection_id.wf(),
            WorldHostC2SMessage::NewQueryResponse { connection_id, .. } => connection_id.wf(),
            WorldHostC2SMessage::RequestPunchOpen {
                target_connection,
                purpose,
                my_host,
                my_local_host,
                ..
            } => {
                &&& target_connection.wf()
                &&& encode_utf8(purpose@).len() <= 0xffff
                &&& encode_utf8(my_host@).len() <= 0xffff
                &&& encode_utf8(my_local_host@).len() <= 0xffff
            },
            WorldHostC2SMessage::PunchFailed { target_connection, .. } => target_connection.wf(),
            WorldHostC2SMessage::PunchSuccess { connection_id, host, .. } => connection_id.wf()
                && encode_utf8(host@).len() <= 0xffff,
            _ => true,
        }
    }
}



/// The exact byte length of a message payload: with the parse-back
/// relation this pins the encoder's output to the wire layout.
pub open spec fn spec_payload_len_c2s(m: C2SSpec) -> int {
    match m {
        C2SSpec::ListOnline { friends } => (4 + 16 * friends.len()) as int,
        C2SSpec::FriendRequest { .. } => 16,
        C2SSpec::PublishedWorld { friends } => (4 + 16 * friends.len()) as int,
        C2SSpec::ClosedWorld { friends } => (4 + 16 * friends.len()) as int,
        C2SSpec::RequestJoin { .. } => 16,
        C2SSpec::JoinGranted { join_type, .. } => match join_type {
            JoinType::UPnP(..) => 11,
            JoinType::Proxy => 9,
            JoinType::Punch => 9,
        },
        C2SSpec::QueryRequest { friends } => (4 + 16 * friends.len()) as int,
        C2SSpec::QueryResponse { data, .. } => (8 + 4 + data.len()) as int,
        C2SSpec::ProxyS2CPacket { data, .. } => (8 + data.len()) as int,
        C2SSpec::ProxyDisconnect { .. } => 8,
        C2SSpec::RequestDirectJoin { .. } => 8,
        C2SSpec::NewQueryResponse { data, .. } => (8 + data.len()) as int,
        C2SSpec::RequestPunchOpen { purpose, my_host, my_local_host, .. } => (8 + 2
            + encode_utf8(purpose).len() + 16 + 2 + encode_utf8(my_host).len() + 2 + 2
            + encode_utf8(my_local_host).len() + 2) as int,
        C2SSpec::PunchFailed { .. } => 24,
        C2SSpec::BeginPortLookup { .. } => 16,
        C2SSpec::PunchSuccess { host, .. } => (8 + 16 + 2 + encode_utf8(host).len() + 2) as int,
    }
}

impl WorldHostC2SMessage {
    /// Encodes the message payload. The bytes produced parse back to this
    /// very message: see the `ensures` clause.
    #[verifier::rlimit(100)]
    pub fn encode_payload(&self) -> (r: Vec<u8>)
        requires
            self.wf(),
        ensures
            r@.len() == spec_payload_len_c2s(self@),
            spec_parse_c2s(self.spec_type_id(), r@) == Some(self@),
    {
        let mut out: Vec<u8> = Vec::new();
        proof {
            lemma_pow256_values();
        }
        match self {
            WorldHostC2SMessage::ListOnline { friends }
            | WorldHostC2SMessage::PublishedWorld { friends }
            | WorldHostC2SMessage::ClosedWorld { friends }
            | WorldHostC2SMessage::QueryRequest { friends } => {
                put_uuid_vec(&mut out, friends);
                proof {
                    assert(out@ =~= enc_uuid_list(friends@));
                    lemma_be_bytes_len(friends@.len(), 4);
                    lemma_enc_uuids_len(friends@);
                    assert(out@.subrange(0, enc_uuid_list(friends@).len() as int) =~= enc_uuid_list(
                        friends@,
                    ));
                    lemma_sp_uuid_list_at(out@, 0, friends@);
                }
            },
            WorldHostC2SMessage::FriendRequest { to_user } => {
                put_u128(&mut out, to_user.raw());
                proof {
                    assert(out@ =~= be_bytes(to_user.value as nat, 16));
                    lemma_be_bytes_len(to_user.value as nat, 16);
                    assert(out@.subrange(0, 16) =~= be_bytes(to_user.value as nat, 16));
                    lemma_sp_u128_at(out@, 0, to_user.value);
                    assert(Uuid { value: to_user.value } == *to_user);
                }
            },
            WorldHostC2SMessage::RequestJoin { friend } => {
                put_u128(&mut out, friend.raw());
                proof {
                    assert(out@ =~= be_bytes(friend.value as nat, 16));
                    lemma_be_bytes_len(friend.value as nat, 16);
                    assert(out@.subrange(0, 16) =~= be_bytes(friend.value as nat, 16));
                    lemma_sp_u128_at(out@, 0, friend.value);
                    assert(Uuid { value: friend.value } == *friend);
                }
            },
            WorldHostC2SMessage::BeginPortLookup { lookup_id } => {
                put_u128(&mut out, lookup_id.raw());
                proof {
                    assert(out@ =~= be_bytes(lookup_id.value as nat, 16));
                    lemma_be_bytes_len(lookup_id.value as nat, 16);
                    assert(out@.subrange(0, 16) =~= be_bytes(lookup_id.value as nat, 16));
                    lemma_sp_u128_at(out@, 0, lookup_id.value);
                    assert(Uuid { value: lookup_id.value } == *lookup_id);
                }
            },
            WorldHostC2SMessage::JoinGranted { connection_id, join_type } => {
                put_u64(&mut out, connection_id.raw());
                let ghost e1 = be_bytes(connection_id.spec_id() as nat, 8);
                proof {
                    lemma_be_bytes_len(connection_id.spec_id() as nat, 8);
                }
                match join_type {
                    JoinType::UPnP(port) => {
                        put_u8(&mut out, 0);
                        put_u16(&mut out, *port);
                        proof {
                            lemma_be_bytes_len(*port as nat, 2);
                            assert(out@ =~= e1 + seq![0u8] + be_bytes(*port as nat, 2));
                            assert(out@.subrange(0, 8) =~= e1);
                            lemma_sp_u64_at(out@, 0, connection_id.spec_id());
                            ConnectionId::lemma_eq(*connection_id, *connection_id);
                            lemma_sp_u8_at(out@, 8, 0);
                            assert(out@.subrange(9, 11) =~= be_bytes(*port as nat, 2));
                            lemma_sp_u16_at(out@, 9, *port);
                        }
                    },
                    JoinType::Proxy => {
                        put_u8(&mut out, 1);
                        proof {
                            assert(out@ =~= e1 + seq![1u8]);
                            assert(out@.subrange(0, 8) =~= e1);
                            lemma_sp_u64_at(out@, 0, connection_id.spec_id());
                            ConnectionId::lemma_eq(*connection_id, *connection_id);
                            lemma_sp_u8_at(out@, 8, 1);
                        }
                    },
                    JoinType::Punch => {
                        put_u8(&mut out, 2);
                        proof {
                            assert(out@ =~= e1 + seq![2u8]);
                            assert(out@.subrange(0, 8) =~= e1);
                            lemma_sp_u64_at(out@, 0, connection_id.spec_id());
                            ConnectionId::lemma_eq(*connection_id, *connection_id);
                            lemma_sp_u8_at(out@, 8, 2);
                        }
                    },
                }
            },
            WorldHostC2SMessage::QueryResponse { connection_id, data } => {
                put_u64(&mut out, connection_id.raw());
                put_u32(&mut out, data.len() as u32);
                put_bytes(&mut out, data.as_slice());
                proof {
                    let e1 = be_bytes(connection_id.spec_id() as nat, 8);
                    let e2 = be_bytes(data@.len(), 4);
                    lemma_be_bytes_len(connection_id.spec_id() as nat, 8);
                    lemma_be_bytes_len(data@.len(), 4);
                    assert(out@ =~= e1 + e2 + data@);
                    assert(out@.subrange(0, 8) =~= e1);
                    lemma_sp_u64_at(out@, 0, connection_id.spec_id());
                    ConnectionId::lemma_eq(*connection_id, *connection_id);
                    assert(out@.subrange(8, 12) =~= e2);
                    lemma_sp_u32_at(out@, 8, data@.len() as u32);
                    assert(out@.subrange(12, 12 + data@.len() as int) =~= data@);
                }
            },
            WorldHostC2SMessage::ProxyS2CPacket { connection_id, data } => {
                put_u64(&mut out, *connection_id);
                put_bytes(&mut out, data.as_slice());
                proof {
                    let e1 = be_bytes(*connection_id as nat, 8);
                    lemma_be_bytes_len(*connection_id as nat, 8);
                    assert(out@ =~= e1 + data@);
                    assert(out@.subrange(0, 8) =~= e1);
                    lemma_sp_u64_at(out@, 0, *connection_id);
                    assert(sp_rest(out@, 8) =~= data@);
                }
            },
            WorldHostC2SMessage::ProxyDisconnect { connection_id } => {
                put_u64(&mut out, *connection_id);
                proof {
                    lemma_be_bytes_len(*connection_id as nat, 8);
                    assert(out@ =~= be_bytes(*connection_id as nat, 8));
                    assert(out@.subrange(0, 8) =~= be_bytes(*connection_id as nat, 8));
                    lemma_sp_u64_at(out@, 0, *connection_id);
                }
            },
            WorldHostC2SMessage::RequestDirectJoin { connection_id } => {
                put_u64(&mut out, connection_id.raw());
                proof {
                    lemma_be_bytes_len(connection_id.spec_id() as nat, 8);
                    assert(out@ =~= be_bytes(connection_id.spec_id() as nat, 8));
                    assert(out@.subrange(0, 8) =~= be_bytes(connection_id.spec_id() as nat, 8));
                    lemma_sp_u64_at(out@, 0, connection_id.spec_id());
                    ConnectionId::lemma_eq(*connection_id, *connection_id);
                }
            },
            WorldHostC2SMessage::NewQueryResponse { connection_id, data } => {
                put_u64(&mut out, connection_id.raw());
                put_bytes(&mut out, data.as_slice());
                proof {
                    let e1 = be_bytes(connection_id.spec_id() as nat, 8);
                    lemma_be_bytes_len(connection_id.spec_id() as nat, 8);
                    assert(out@ =~= e1 + data@);
                    assert(out@.subrange(0, 8) =~= e1);
                    lemma_sp_u64_at(out@, 0, connection_id.spec_id());
                    ConnectionId::lemma_eq(*connection_id, *connection_id);
                    assert(sp_rest(out@, 8) =~= data@);
                }
            },
            WorldHostC2SMessage::PunchFailed { target_connection, punch_id } => {
                put_u64(&mut out, target_connection.raw());
                put_u128(&mut out, punch_id.raw());
                proof {
                    let e1 = be_bytes(target_connection.spec_id() as nat, 8);
                    let e2 = be_bytes(punch_id.value as nat, 16);
                    lemma_be_bytes_len(target_connection.spec_id() as nat, 8);
                    lemma_be_bytes_len(punch_id.value as nat, 16);
                    assert(out@ =~= e1 + e2);
                    assert(out@.subrange(0, 8) =~= e1);
                    lemma_sp_u64_at(out@, 0, target_connection.spec_id());
                    ConnectionId::lemma_eq(*target_connection, *target_connection);
                    assert(out@.subrange(8, 24) =~= e2);
                    lemma_sp_u128_at(out@, 8, punch_id.value);
                    assert(Uuid { value: punch_id.value } == *punch_id);
                }
            },
            WorldHostC2SMessage::PunchSuccess { connection_id, punch_id, host, port } => {
                put_u64(&mut out, connection_id.raw());
                put_u128(&mut out, punch_id.raw());
                put_string(&mut out, host.as_str());
                put_u16(&mut out, *port);
                proof {
                    let e1 = be_bytes(connection_id.spec_id() as nat, 8);
                    let e2 = be_bytes(punch_id.value as nat, 16);
                    let e3 = enc_string(host@);
                    let e4 = be_bytes(*port as nat, 2);
                    lemma_be_bytes_len(connection_id.spec_id() as nat, 8);
                    lemma_be_bytes_len(punch_id.value as nat, 16);
                    lemma_be_bytes_len(encode_utf8(host@).len(), 2);
                    lemma_be_bytes_len(*port as nat, 2);
                    assert(out@ =~= e1 + e2 + e3 + e4);
                    assert(out@.subrange(0, 8) =~= e1);
                    lemma_sp_u64_at(out@, 0, connection_id.spec_id());
                    ConnectionId::lemma_eq(*connection_id, *connection_id);
                    assert(out@.subrange(8, 24) =~= e2);
                    lemma_sp_u128_at(out@, 8, punch_id.value);
                    assert(Uuid { value: punch_id.value } == *punch_id);
                    assert(out@.subrange(24, 24 + e3.len() as int) =~= e3);
                    lemma_sp_string_at(out@, 24, host@);
                    let i4 = 24 + e3.len() as int;
                    assert(out@.subrange(i4, i4 + 2) =~= e4);
                    lemma_sp_u16_at(out@, i4, *port);
                }
            },
            WorldHostC2SMessage::RequestPunchOpen {
                target_connection,
                purpose,
                punch_id,
                my_host,
                my_port,
                my_local_host,
                my_local_port,
            } => {
                put_u64(&mut out, target_connection.raw());
                put_string(&mut out, purpose.as_str());
                put_u128(&mut out, punch_id.raw());
                put_string(&mut out, my_host.as_str());
                put_u16(&mut out, *my_port);
                put_string(&mut out, my_local_host.as_str());
                put_u16(&mut out, *my_local_port);
                proof {
                    let e1 = be_bytes(target_connection.spec_id() as nat, 8);
                    let e2 = enc_string(purpose@);
                    let e3 = be_bytes(punch_id.value as nat, 16);
                    let e4 = enc_string(my_host@);
                    let e5 = be_bytes(*my_port as nat, 2);
                    let e6 = enc_string(my_local_host@);
                    let e7 = be_bytes(*my_local_port as nat, 2);
                    lemma_be_bytes_len(target_connection.spec_id() as nat, 8);
                    lemma_be_bytes_len(encode_utf8(purpose@).len(), 2);
                    lemma_be_bytes_len(punch_id.value as nat, 16);
                    lemma_be_bytes_len(encode_utf8(my_host@).len(), 2);
                    lemma_be_bytes_len(*my_port as nat, 2);
                    lemma_be_bytes_len(encode_utf8(my_local_host@).len(), 2);
                    lemma_be_bytes_len(*my_local_port as nat, 2);
                    assert(out@ =~= e1 + e2 + e3 + e4 + e5 + e6 + e7);
                    assert(out@.subrange(0, 8) =~= e1);
                    lemma_sp_u64_at(out@, 0, target_connection.spec_id());
                    ConnectionId::lemma_eq(*target_connection, *target_connection);
                    let i2 = 8int;
                    assert(out@.subrange(i2, i2 + e2.len() as int) =~= e2);
                    lemma_sp_string_at(out@, i2, purpose@);
                    let i3 = i2 + e2.len() as int;
                    assert(out@.subrange(i3, i3 + 16) =~= e3);
                    lemma_sp_u128_at(out@, i3, punch_id.value);
                    assert(Uuid { value: punch_id.value } == *punch_id);
                    let i4 = i3 + 16;
                    assert(out@.subrange(i4, i4 + e4.len() as int) =~= e4);
                    lemma_sp_string_at(out@, i4, my_host@);
                    let i5 = i4 + e4.len() as int;
                    assert(out@.subrange(i5, i5 + 2) =~= e5);
                    lemma_sp_u16_at(out@, i5, *my_port);
                    let i6 = i5 + 2;
                    assert(out@.subrange(i6, i6 + e6.len() as int) =~= e6);
                    lemma_sp_string_at(out@, i6, my_local_host@);
                    let i7 = i6 + e6.len() as int;
                    assert(out@.subrange(i7, i7 + 2) =~= e7);
                    lemma_sp_u16_at(out@, i7, *my_local_port);
                }
            },
        }
        out
    }
}

} // verus!
