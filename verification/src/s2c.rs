//! Server-to-client control-plane messages: the typed union, its wire
//! format, and the encoder.
//!
//! The spec function [`spec_parse_s2c`] is the definition of the wire
//! format; the executable encoder produces bytes that it maps back to the
//! encoded message.

use vstd::prelude::*;
use vstd::utf8::encode_utf8;
use crate::ids::{ConnectionId, SecurityLevel, Uuid, MAX_CONNECTION_IDS};
use crate::wire::{
    be_bytes, enc_string, lemma_be_bytes_len, lemma_pow256_values, lemma_sp_u16_at,
    lemma_sp_u32_at, lemma_sp_u64_at, lemma_sp_u128_at, lemma_sp_u8_at, lemma_sp_string_at,
    put_bytes, put_string, put_u16, put_u32, put_u64, put_u8, put_u128, sp_string, sp_take,
    sp_u128, sp_u16, sp_u32, sp_u64, sp_u8,
};
use crate::messages::{sp_cid, sp_uuid, sp_rest};

verus! {

pub const ERROR_ID: u8 = 0;
pub const IS_ONLINE_TO_ID: u8 = 1;
pub const ONLINE_GAME_ID: u8 = 2;
pub const FRIEND_REQUEST_ID: u8 = 3;
pub const PUBLISHED_WORLD_ID: u8 = 4;
pub const CLOSED_WORLD_ID: u8 = 5;
pub const REQUEST_JOIN_ID: u8 = 6;
pub const QUERY_REQUEST_ID: u8 = 7;
pub const QUERY_RESPONSE_ID: u8 = 8;
pub const PROXY_C2S_PACKET_ID: u8 = 9;
pub const PROXY_CONNECT_ID: u8 = 10;
pub const PROXY_DISCONNECT_ID: u8 = 11;
pub const CONNECTION_INFO_ID: u8 = 12;
pub const EXTERNAL_PROXY_SERVER_ID: u8 = 13;
pub const OUTDATED_WORLD_HOST_ID: u8 = 14;
pub const CONNECTION_NOT_FOUND_ID: u8 = 15;
pub const NEW_QUERY_RESPONSE_ID: u8 = 16;
pub const WARNING_ID: u8 = 17;
pub const PUNCH_OPEN_REQUEST_ID: u8 = 18;
pub const CANCEL_PORT_LOOKUP_ID: u8 = 19;
pub const PORT_LOOKUP_SUCCESS_ID: u8 = 20;
pub const PUNCH_REQUEST_CANCELLED_ID: u8 = 21;
pub const PUNCH_SUCCESS_ID: u8 = 22;

/// The octets of an IP address, 4 for IPv4 and 16 for IPv6.
#[derive(Clone, Copy, Debug, PartialEq, Eq)]
pub enum IpAddrBytes {
    V4([u8; 4]),
    V6([u8; 16]),
}

impl View for IpAddrBytes {
    type V = Seq<u8>;

    open spec fn view(&self) -> Seq<u8> {
        match self {
            IpAddrBytes::V4(a) => a@,
            IpAddrBytes::V6(a) => a@,
        }
    }
}

/// A server-to-client message.
#[derive(Clone, Debug)]
pub enum WorldHostS2CMessage {
    Error { message: String, critical: bool },
    IsOnlineTo { user: Uuid },
    OnlineGame { host: String, port: u16, owner_cid: ConnectionId },
    FriendRequest { from_user: Uuid, security: SecurityLevel },
    PublishedWorld { user: Uuid, connection_id: ConnectionId, security: SecurityLevel },
    ClosedWorld { user: Uuid },
    RequestJoin { user: Uuid, connection_id: ConnectionId, security: SecurityLevel },
    QueryRequest { friend: Uuid, connection_id: ConnectionId, security: SecurityLevel },
    QueryResponse { friend: Uuid, length: u32, data: Vec<u8> },
    ProxyC2SPacket { connection_id: u64, data: Vec<u8> },
    ProxyConnect { connection_id: u64, remote_addr: IpAddrBytes },
    ProxyDisconnect { connection_id: u64 },
    ConnectionInfo {
        connection_id: ConnectionId,
        base_ip: String,
        base_port: u16,
        user_ip: String,
        protocol_version: u32,
        punch_port: u16,
    },
    ExternalProxyServer { host: String, port: u16, base_addr: String, mc_port: u16 },
    OutdatedWorldHost { recommended_version: String },
    ConnectionNotFound { connection_id: ConnectionId },
    NewQueryResponse { friend: Uuid, data: Vec<u8> },
    Warning { message: String, important: bool },
    PunchOpenRequest {
        punch_id: Uuid,
        purpose: String,
        from_host: String,
        from_port: u16,
        connection_id: ConnectionId,
        user: Uuid,
        security: SecurityLevel,
    },
    CancelPortLookup { lookup_id: Uuid },
    PortLookupSuccess { lookup_id: Uuid, host: String, port: u16 },
    PunchRequestCancelled { punch_id: Uuid },
    PunchSuccess { punch_id: Uuid, host: String, port: u16 },
}

/// The mathematical form of a server-to-client message.
pub enum S2CSpec {
    Error { message: Seq<char>, critical: bool },
    IsOnlineTo { user: Uuid },
    OnlineGame { host: Seq<char>, port: u16, owner_cid: ConnectionId },
    FriendRequest { from_user: Uuid, security: SecurityLevel },
    PublishedWorld { user: Uuid, connection_id: ConnectionId, security: SecurityLevel },
    ClosedWorld { user: Uuid },
    RequestJoin { user: Uuid, connection_id: ConnectionId, security: SecurityLevel },
    QueryRequest { friend: Uuid, connection_id: ConnectionId, security: SecurityLevel },
    QueryResponse { friend: Uuid, length: u32, data: Seq<u8> },
    ProxyC2SPacket { connection_id: u64, data: Seq<u8> },
    ProxyConnect { connection_id: u64, remote_addr: Seq<u8> },
    ProxyDisconnect { connection_id: u64 },
    ConnectionInfo {
        connection_id: ConnectionId,
        base_ip: Seq<char>,
        base_port: u16,
        user_ip: Seq<char>,
        protocol_version: u32,
        punch_port: u16,
    },
    ExternalProxyServer { host: Seq<char>, port: u16, base_addr: Seq<char>, mc_port: u16 },
    OutdatedWorldHost { recommended_version: Seq<char> },
    ConnectionNotFound { connection_id: ConnectionId },
    NewQueryResponse { friend: Uuid, data: Seq<u8> },
    Warning { message: Seq<char>, important: bool },
    PunchOpenRequest {
        punch_id: Uuid,
        purpose: Seq<char>,
        from_host: Seq<char>,
        from_port: u16,
        connection_id: ConnectionId,
        user: Uuid,
        security: SecurityLevel,
    },
    CancelPortLookup { lookup_id: Uuid },
    PortLookupSuccess { lookup_id: Uuid, host: Seq<char>, port: u16 },
    PunchRequestCancelled { punch_id: Uuid },
    PunchSuccess { punch_id: Uuid, host: Seq<char>, port: u16 },
}

impl View for WorldHostS2CMessage {
    type V = S2CSpec;

    open spec fn view(&self) -> S2CSpec {
        match self {
            WorldHostS2CMessage::Error { message, critical } => S2CSpec::Error {
                message: message@,
                critical: *critical,
            },
            WorldHostS2CMessage::IsOnlineTo { user } => S2CSpec::IsOnlineTo { user: *user },
            WorldHostS2CMessage::OnlineGame { host, port, owner_cid } => S2CSpec::OnlineGame {
                host: host@,
                port: *port,
                owner_cid: *owner_cid,
            },
            WorldHostS2CMessage::FriendRequest { from_user, security } => S2CSpec::FriendRequest {
                from_user: *from_user,
                security: *security,
            },
            WorldHostS2CMessage::PublishedWorld { user, connection_id, security } => S2CSpec::PublishedWorld {
                user: *user,
                connection_id: *connection_id,
                security: *security,
            },
            WorldHostS2CMessage::ClosedWorld { user } => S2CSpec::ClosedWorld { user: *user },
            WorldHostS2CMessage::RequestJoin { user, connection_id, security } => S2CSpec::RequestJoin {
                user: *user,
                connection_id: *connection_id,
                security: *security,
            },
            WorldHostS2CMessage::QueryRequest { friend, connection_id, security } => S2CSpec::QueryRequest {
                friend: *friend,
                connection_id: *connection_id,
                security: *security,
            },
            WorldHostS2CMessage::QueryResponse { friend, length, data } => S2CSpec::QueryResponse {
                friend: *friend,
                length: *length,
                data: data@,
            },
            WorldHostS2CMessage::ProxyC2SPacket { connection_id, data } => S2CSpec::ProxyC2SPacket {
                connection_id: *connection_id,
                data: data@,
            },
            WorldHostS2CMessage::ProxyConnect { connection_id, remote_addr } => S2CSpec::ProxyConnect {
                connection_id: *connection_id,
                remote_addr: remote_addr@,
            },
            WorldHostS2CMessage::ProxyDisconnect { connection_id } => S2CSpec::ProxyDisconnect {
                connection_id: *connection_id,
            },
            WorldHostS2CMessage::ConnectionInfo {
                connection_id,
                base_ip,
                base_port,
                user_ip,
                protocol_version,
                punch_port,
            } => S2CSpec::ConnectionInfo {
                connection_id: *connection_id,
                base_ip: base_ip@,
                base_port: *base_port,
                user_ip: user_ip@,
                protocol_version: *protocol_version,
                punch_port: *punch_port,
            },
            WorldHostS2CMessage::ExternalProxyServer { host, port, base_addr, mc_port } => S2CSpec::ExternalProxyServer {
                host: host@,
                port: *port,
                base_addr: base_addr@,
                mc_port: *mc_port,
            },
            WorldHostS2CMessage::OutdatedWorldHost { recommended_version } => S2CSpec::OutdatedWorldHost {
                recommended_version: recommended_version@,
            },
            WorldHostS2CMessage::ConnectionNotFound { connection_id } => S2CSpec::ConnectionNotFound {
                connection_id: *connection_id,
            },
            WorldHostS2CMessage::NewQueryResponse { friend, data } => S2CSpec::NewQueryResponse {
                friend: *friend,
                data: data@,
            },
            WorldHostS2CMessage::Warning { message, important } => S2CSpec::Warning {
                message: message@,
                important: *important,
            },
            WorldHostS2CMessage::PunchOpenRequest {
                punch_id,
                purpose,
                from_host,
                from_port,
                connection_id,
                user,
                security,
            } => S2CSpec::PunchOpenRequest {
                punch_id: *punch_id,
                purpose: purpose@,
                from_host: from_host@,
                from_port: *from_port,
                connection_id: *connection_id,
                user: *user,
                security: *security,
            },
            WorldHostS2CMessage::CancelPortLookup { lookup_id } => S2CSpec::CancelPortLookup {
                lookup_id: *lookup_id,
            },
            WorldHostS2CMessage::PortLookupSuccess { lookup_id, host, port } => S2CSpec::PortLookupSuccess {
                lookup_id: *lookup_id,
                host: host@,
                port: *port,
            },
            WorldHostS2CMessage::PunchRequestCancelled { punch_id } => S2CSpec::PunchRequestCancelled {
                punch_id: *punch_id,
            },
            WorldHostS2CMessage::PunchSuccess { punch_id, host, port } => S2CSpec::PunchSuccess {
                punch_id: *punch_id,
                host: host@,
                port: *port,
            },
        }
    }
}

/// Reads a security level byte.
pub open spec fn sp_security(s: Seq<u8>, i: int) -> Option<(SecurityLevel, int)> {
    match sp_u8(s, i) {
        Some((b, j)) => if b == 0 {
            Some((SecurityLevel::Insecure, j))
        } else if b == 1 {
            Some((SecurityLevel::Offline, j))
        } else if b == 2 {
            Some((SecurityLevel::Secure, j))
        } else {
            None
        },
        None => None,
    }
}

/// Reads a boolean byte: zero is false, anything else is true.
pub open spec fn sp_bool(s: Seq<u8>, i: int) -> Option<(bool, int)> {
    match sp_u8(s, i) {
        Some((b, j)) => Some((b != 0, j)),
        None => None,
    }
}

/// Reads an IP address: a one-byte octet count (4 or 16), then the octets.
pub open spec fn sp_ip(s: Seq<u8>, i: int) -> Option<(Seq<u8>, int)> {
    match sp_u8(s, i) {
        Some((n, j)) => if n == 4 || n == 16 {
            sp_take(s, j, n as int)
        } else {
            None
        },
        None => None,
    }
}

proof fn lemma_sp_security_at(s: Seq<u8>, i: int, l: SecurityLevel)
    requires
        0 <= i,
        i + 1 <= s.len(),
        s[i] == l.spec_wire_byte(),
    ensures
        sp_security(s, i) == Some((l, i + 1)),
{
    match l {
        SecurityLevel::Insecure => {},
        SecurityLevel::Offline => {},
        SecurityLevel::Secure => {},
    }
}


/// What the payload bytes of a server-to-client message with the given
/// type identifier parse to, or `None` when they are malformed.
pub open spec fn spec_parse_s2c(id: u8, s: Seq<u8>) -> Option<S2CSpec> {
    if id == ERROR_ID {
        match sp_string(s, 0) {
            Some((message, i1)) =>
            match sp_bool(s, i1) {
                Some((critical, i2)) =>
                Some(S2CSpec::Error { message, critical })
                ,
                None => None,
            }
            ,
            None => None,
        }
    } else if id == IS_ONLINE_TO_ID {
        match sp_uuid(s, 0) {
            Some((user, i1)) =>
            Some(S2CSpec::IsOnlineTo { user })
            ,
            None => None,
        }
    } else if id == ONLINE_GAME_ID {
        match sp_string(s, 0) {
            Some((host, i1)) =>
            match sp_u16(s, i1) {
                Some((port, i2)) =>
                match sp_cid(s, i2) {
                    Some((owner_cid, i3)) =>
                    match sp_u8(s, i3) {
                        Some((z, i4)) => if z == 0 {
                        Some(S2CSpec::OnlineGame { host, port, owner_cid })
                        } else {
                            None
                        },
                        None => None,
                    }
                    ,
                    None => None,
                }
                ,
                None => None,
            }
            ,
            None => None,
        }
    } else if id == FRIEND_REQUEST_ID {
        match sp_uuid(s, 0) {
            Some((from_user, i1)) =>
            match sp_security(s, i1) {
                Some((security, i2)) =>
                Some(S2CSpec::FriendRequest { from_user, security })
                ,
                None => None,
            }
            ,
            None => None,
        }
    } else if id == PUBLISHED_WORLD_ID {
        match sp_uuid(s, 0) {
            Some((user, i1)) =>
            match sp_cid(s, i1) {
                Some((connection_id, i2)) =>
                match sp_security(s, i2) {
                    Some((security, i3)) =>
                    Some(S2CSpec::PublishedWorld { user, connection_id, security })
                    ,
                    None => None,
                }
                ,
                None => None,
            }
            ,
            None => None,
        }
    } else if id == CLOSED_WORLD_ID {
        match sp_uuid(s, 0) {
            Some((user, i1)) =>
            Some(S2CSpec::ClosedWorld { user })
            ,
            None => None,
        }
    } else if id == REQUEST_JOIN_ID {
        match sp_uuid(s, 0) {
            Some((user, i1)) =>
            match sp_cid(s, i1) {
                Some((connection_id, i2)) =>
                match sp_security(s, i2) {
                    Some((security, i3)) =>
                    Some(S2CSpec::RequestJoin { user, connection_id, security })
                    ,
                    None => None,
                }
                ,
                None => None,
            }
            ,
            None => None,
        }
    } else if id == QUERY_REQUEST_ID {
        match sp_uuid(s, 0) {
            Some((friend, i1)) =>
            match sp_cid(s, i1) {
                Some((connection_id, i2)) =>
                match sp_security(s, i2) {
                    Some((security, i3)) =>
                    Some(S2CSpec::QueryRequest { friend, connection_id, security })
                    ,
                    None => None,
                }
                ,
                None => None,
            }
            ,
            None => None,
        }
    } else if id == QUERY_RESPONSE_ID {
        match sp_uuid(s, 0) {
            Some((friend, i1)) =>
            match sp_u32(s, i1) {
                Some((length, i2)) =>
                match sp_take(s, i2, length as int) {
                    Some((data, i3)) =>
                    Some(S2CSpec::QueryResponse { friend, length, data })
                    ,
                    None => None,
                }
                ,
                None => None,
            }
            ,
            None => None,
        }
    } else if id == PROXY_C2S_PACKET_ID {
        match sp_u64(s, 0) {
            Some((connection_id, i1)) =>
            { let data = sp_rest(s, i1); Some(S2CSpec::ProxyC2SPacket { connection_id, data }) }
            ,
            None => None,
        }
    } else if id == PROXY_CONNECT_ID {
        match sp_u64(s, 0) {
            Some((connection_id, i1)) =>
            match sp_ip(s, i1) {
                Some((remote_addr, i2)) =>
                Some(S2CSpec::ProxyConnect { connection_id, remote_addr })
                ,
                None => None,
            }
            ,
            None => None,
        }
    } else if id == PROXY_DISCONNECT_ID {
        match sp_u64(s, 0) {
            Some((connection_id, i1)) =>
            Some(S2CSpec::ProxyDisconnect { connection_id })
            ,
            None => None,
        }
    } else if id == CONNECTION_INFO_ID {
        match sp_cid(s, 0) {
            Some((connection_id, i1)) =>
            match sp_string(s, i1) {
                Some((base_ip, i2)) =>
                match sp_u16(s, i2) {
                    Some((base_port, i3)) =>
                    match sp_string(s, i3) {
                        Some((user_ip, i4)) =>
                        match sp_u32(s, i4) {
                            Some((protocol_version, i5)) =>
                            match sp_u16(s, i5) {
                                Some((punch_port, i6)) =>
                                Some(S2CSpec::ConnectionInfo { connection_id, base_ip, base_port, user_ip, protocol_version, punch_port })
                                ,
                                None => None,
                            }
                            ,
                            None => None,
                        }
                        ,
                        None => None,
                    }
                    ,
                    None => None,
                }
                ,
                None => None,
            }
            ,
            None => None,
        }
    } else if id == EXTERNAL_PROXY_SERVER_ID {
        match sp_string(s, 0) {
            Some((host, i1)) =>
            match sp_u16(s, i1) {
                Some((port, i2)) =>
                match sp_string(s, i2) {
                    Some((base_addr, i3)) =>
                    match sp_u16(s, i3) {
                        Some((mc_port, i4)) =>
                        Some(S2CSpec::ExternalProxyServer { host, port, base_addr, mc_port })
                        ,
                        None => None,
                    }
                    ,
                    None => None,
                }
                ,
                None => None,
            }
            ,
            None => None,
        }
    } else if id == OUTDATED_WORLD_HOST_ID {
        match sp_string(s, 0) {
            Some((recommended_version, i1)) =>
            Some(S2CSpec::OutdatedWorldHost { recommended_version })
            ,
            None => None,
        }
    } else if id == CONNECTION_NOT_FOUND_ID {
        match sp_cid(s, 0) {
            Some((connection_id, i1)) =>
            Some(S2CSpec::ConnectionNotFound { connection_id })
            ,
            None => None,
        }
    } else if id == NEW_QUERY_RESPONSE_ID {
        match sp_uuid(s, 0) {
            Some((friend, i1)) =>
            { let data = sp_rest(s, i1); Some(S2CSpec::NewQueryResponse { friend, data }) }
            ,
            None => None,
        }
    } else if id == WARNING_ID {
        match sp_string(s, 0) {
            Some((message, i1)) =>
            match sp_bool(s, i1) {
                Some((important, i2)) =>
                Some(S2CSpec::Warning { message, important })
                ,
                None => None,
            }
            ,
            None => None,
        }
    } else if id == PUNCH_OPEN_REQUEST_ID {
        match sp_uuid(s, 0) {
            Some((punch_id, i1)) =>
            match sp_string(s, i1) {
                Some((purpose, i2)) =>
                match sp_string(s, i2) {
                    Some((from_host, i3)) =>
                    match sp_u16(s, i3) {
                        Some((from_port, i4)) =>
                        match sp_cid(s, i4) {
                            Some((connection_id, i5)) =>
                            match sp_uuid(s, i5) {
                                Some((user, i6)) =>
                                match sp_security(s, i6) {
                                    Some((security, i7)) =>
                                    Some(S2CSpec::PunchOpenRequest { punch_id, purpose, from_host, from_port, connection_id, user, security })
                                    ,
                                    None => None,
                                }
                                ,
                                None => None,
                            }
                            ,
                            None => None,
                        }
                        ,
                        None => None,
                    }
                    ,
                    None => None,
                }
                ,
                None => None,
            }
            ,
            None => None,
        }
    } else if id == CANCEL_PORT_LOOKUP_ID {
        match sp_uuid(s, 0) {
            Some((lookup_id, i1)) =>
            Some(S2CSpec::CancelPortLookup { lookup_id })
            ,
            None => None,
        }
    } else if id == PORT_LOOKUP_SUCCESS_ID {
        match sp_uuid(s, 0) {
            Some((lookup_id, i1)) =>
            match sp_string(s, i1) {
                Some((host, i2)) =>
                match sp_u16(s, i2) {
                    Some((port, i3)) =>
                    Some(S2CSpec::PortLookupSuccess { lookup_id, host, port })
                    ,
                    None => None,
                }
                ,
                None => None,
            }
            ,
            None => None,
        }
    } else if id == PUNCH_REQUEST_CANCELLED_ID {
        match sp_uuid(s, 0) {
            Some((punch_id, i1)) =>
            Some(S2CSpec::PunchRequestCancelled { punch_id })
            ,
            None => None,
        }
    } else if id == PUNCH_SUCCESS_ID {
        match sp_uuid(s, 0) {
            Some((punch_id, i1)) =>
            match sp_string(s, i1) {
                Some((host, i2)) =>
                match sp_u16(s, i2) {
                    Some((port, i3)) =>
                    Some(S2CSpec::PunchSuccess { punch_id, host, port })
                    ,
                    None => None,
                }
                ,
                None => None,
            }
            ,
            None => None,
        }
    } else {
        None
    }
}


/// The protocol version in which a message form was introduced.
pub open spec fn spec_fp_s2c(m: S2CSpec) -> u32 {
    match m {
        S2CSpec::Error { .. } => 2,
        S2CSpec::IsOnlineTo { .. } => 2,
        S2CSpec::OnlineGame { .. } => 2,
        S2CSpec::FriendRequest { .. } => 2,
        S2CSpec::PublishedWorld { .. } => 2,
        S2CSpec::ClosedWorld { .. } => 2,
        S2CSpec::RequestJoin { .. } => 2,
        S2CSpec::QueryRequest { .. } => 2,
        S2CSpec::QueryResponse { .. } => 2,
        S2CSpec::ProxyC2SPacket { .. } => 2,
        S2CSpec::ProxyConnect { .. } => 2,
        S2CSpec::ProxyDisconnect { .. } => 2,
        S2CSpec::ConnectionInfo { .. } => 2,
        S2CSpec::ExternalProxyServer { .. } => 2,
        S2CSpec::OutdatedWorldHost { .. } => 4,
        S2CSpec::ConnectionNotFound { .. } => 4,
        S2CSpec::NewQueryResponse { .. } => 5,
        S2CSpec::Warning { .. } => 6,
        S2CSpec::PunchOpenRequest { .. } => 7,
        S2CSpec::CancelPortLookup { .. } => 7,
        S2CSpec::PortLookupSuccess { .. } => 7,
        S2CSpec::PunchRequestCancelled { .. } => 7,
        S2CSpec::PunchSuccess { .. } => 7,
    }
}

/// The wire-format size limits, over the mathematical message form.
pub open spec fn spec_wf_s2c(m: S2CSpec) -> bool {
    match m {
        S2CSpec::Error { message, .. } => encode_utf8(message).len() <= 0xffff,
        S2CSpec::OnlineGame { host, owner_cid, .. } => encode_utf8(host).len() <= 0xffff
            && owner_cid.wf(),
        S2CSpec::PublishedWorld { connection_id, .. } => connection_id.wf(),
        S2CSpec::RequestJoin { connection_id, .. } => connection_id.wf(),
        S2CSpec::QueryRequest { connection_id, .. } => connection_id.wf(),
        S2CSpec::QueryResponse { length, data, .. } => length == data.len() && data.len()
            <= 0xffffff00,
        S2CSpec::ConnectionInfo { connection_id, base_ip, user_ip, .. } => connection_id.wf()
            && encode_utf8(base_ip).len() <= 0xffff && encode_utf8(user_ip).len() <= 0xffff,
        S2CSpec::ExternalProxyServer { host, base_addr, .. } => encode_utf8(host).len() <= 0xffff
            && encode_utf8(base_addr).len() <= 0xffff,
        S2CSpec::OutdatedWorldHost { recommended_version } => encode_utf8(
            recommended_version,
        ).len() <= 0xffff,
        S2CSpec::ConnectionNotFound { connection_id } => connection_id.wf(),
        S2CSpec::Warning { message, .. } => encode_utf8(message).len() <= 0xffff,
        S2CSpec::PunchOpenRequest { purpose, from_host, connection_id, .. } => encode_utf8(
            purpose,
        ).len() <= 0xffff && encode_utf8(from_host).len() <= 0xffff && connection_id.wf(),
        S2CSpec::PortLookupSuccess { host, .. } => encode_utf8(host).len() <= 0xffff,
        S2CSpec::PunchSuccess { host, .. } => encode_utf8(host).len() <= 0xffff,
        S2CSpec::ProxyC2SPacket { data, .. } => data.len() <= 0xffffff00,
        S2CSpec::NewQueryResponse { data, .. } => data.len() <= 0xffffff00,
        _ => true,
    }
}


/// The exact byte length of a message payload: with the parse-back
/// relation this pins the encoder's output to the wire layout.
pub open spec fn spec_payload_len(m: S2CSpec) -> int {
    match m {
        S2CSpec::Error { message, .. } => (2 + encode_utf8(message).len() + 1) as int,
        S2CSpec::IsOnlineTo { .. } => 16,
        S2CSpec::OnlineGame { host, .. } => (2 + encode_utf8(host).len() + 2 + 8 + 1) as int,
        S2CSpec::FriendRequest { .. } => 17,
        S2CSpec::PublishedWorld { .. } => 25,
        S2CSpec::ClosedWorld { .. } => 16,
        S2CSpec::RequestJoin { .. } => 25,
        S2CSpec::QueryRequest { .. } => 25,
        S2CSpec::QueryResponse { data, .. } => (16 + 4 + data.len()) as int,
        S2CSpec::ProxyC2SPacket { data, .. } => (8 + data.len()) as int,
        S2CSpec::ProxyConnect { remote_addr, .. } => (8 + 1 + remote_addr.len()) as int,
        S2CSpec::ProxyDisconnect { .. } => 8,
        S2CSpec::ConnectionInfo { base_ip, user_ip, .. } => (8 + 2 + encode_utf8(base_ip).len()
            + 2 + 2 + encode_utf8(user_ip).len() + 4 + 2) as int,
        S2CSpec::ExternalProxyServer { host, base_addr, .. } => (2 + encode_utf8(host).len() + 2
            + 2 + encode_utf8(base_addr).len() + 2) as int,
        S2CSpec::OutdatedWorldHost { recommended_version } => (2 + encode_utf8(
            recommended_version,
        ).len()) as int,
        S2CSpec::ConnectionNotFound { .. } => 8,
        S2CSpec::NewQueryResponse { data, .. } => (16 + data.len()) as int,
        S2CSpec::Warning { message, .. } => (2 + encode_utf8(message).len() + 1) as int,
        S2CSpec::PunchOpenRequest { purpose, from_host, .. } => (16 + 2 + encode_utf8(
            purpose,
        ).len() + 2 + encode_utf8(from_host).len() + 2 + 8 + 16 + 1) as int,
        S2CSpec::CancelPortLookup { .. } => 16,
        S2CSpec::PortLookupSuccess { host, .. } => (16 + 2 + encode_utf8(host).len() + 2) as int,
        S2CSpec::PunchRequestCancelled { .. } => 16,
        S2CSpec::PunchSuccess { host, .. } => (16 + 2 + encode_utf8(host).len() + 2) as int,
    }
}

impl WorldHostS2CMessage {
    /// The wire type identifier of the message.
    pub open spec fn spec_type_id(&self) -> u8 {
        match self {
            WorldHostS2CMessage::Error { .. } => ERROR_ID,
            WorldHostS2CMessage::IsOnlineTo { .. } => IS_ONLINE_TO_ID,
            WorldHostS2CMessage::OnlineGame { .. } => ONLINE_GAME_ID,
            WorldHostS2CMessage::FriendRequest { .. } => FRIEND_REQUEST_ID,
            WorldHostS2CMessage::PublishedWorld { .. } => PUBLISHED_WORLD_ID,
            WorldHostS2CMessage::ClosedWorld { .. } => CLOSED_WORLD_ID,
            WorldHostS2CMessage::RequestJoin { .. } => REQUEST_JOIN_ID,
            WorldHostS2CMessage::QueryRequest { .. } => QUERY_REQUEST_ID,
            WorldHostS2CMessage::QueryResponse { .. } => QUERY_RESPONSE_ID,
            WorldHostS2CMessage::ProxyC2SPacket { .. } => PROXY_C2S_PACKET_ID,
            WorldHostS2CMessage::ProxyConnect { .. } => PROXY_CONNECT_ID,
            WorldHostS2CMessage::ProxyDisconnect { .. } => PROXY_DISCONNECT_ID,
            WorldHostS2CMessage::ConnectionInfo { .. } => CONNECTION_INFO_ID,
            WorldHostS2CMessage::ExternalProxyServer { .. } => EXTERNAL_PROXY_SERVER_ID,
            WorldHostS2CMessage::OutdatedWorldHost { .. } => OUTDATED_WORLD_HOST_ID,
            WorldHostS2CMessage::ConnectionNotFound { .. } => CONNECTION_NOT_FOUND_ID,
            WorldHostS2CMessage::NewQueryResponse { .. } => NEW_QUERY_RESPONSE_ID,
            WorldHostS2CMessage::Warning { .. } => WARNING_ID,
            WorldHostS2CMessage::PunchOpenRequest { .. } => PUNCH_OPEN_REQUEST_ID,
            WorldHostS2CMessage::CancelPortLookup { .. } => CANCEL_PORT_LOOKUP_ID,
            WorldHostS2CMessage::PortLookupSuccess { .. } => PORT_LOOKUP_SUCCESS_ID,
            WorldHostS2CMessage::PunchRequestCancelled { .. } => PUNCH_REQUEST_CANCELLED_ID,
            WorldHostS2CMessage::PunchSuccess { .. } => PUNCH_SUCCESS_ID,
        }
    }

    pub fn type_id(&self) -> (r: u8)
        ensures
            r == self.spec_type_id(),
    {
        match self {
            WorldHostS2CMessage::Error { .. } => ERROR_ID,
            WorldHostS2CMessage::IsOnlineTo { .. } => IS_ONLINE_TO_ID,
            WorldHostS2CMessage::OnlineGame { .. } => ONLINE_GAME_ID,
            WorldHostS2CMessage::FriendRequest { .. } => FRIEND_REQUEST_ID,
            WorldHostS2CMessage::PublishedWorld { .. } => PUBLISHED_WORLD_ID,
            WorldHostS2CMessage::ClosedWorld { .. } => CLOSED_WORLD_ID,
            WorldHostS2CMessage::RequestJoin { .. } => REQUEST_JOIN_ID,
            WorldHostS2CMessage::QueryRequest { .. } => QUERY_REQUEST_ID,
            WorldHostS2CMessage::QueryResponse { .. } => QUERY_RESPONSE_ID,
            WorldHostS2CMessage::ProxyC2SPacket { .. } => PROXY_C2S_PACKET_ID,
            WorldHostS2CMessage::ProxyConnect { .. } => PROXY_CONNECT_ID,
            WorldHostS2CMessage::ProxyDisconnect { .. } => PROXY_DISCONNECT_ID,
            WorldHostS2CMessage::ConnectionInfo { .. } => CONNECTION_INFO_ID,
            WorldHostS2CMessage::ExternalProxyServer { .. } => EXTERNAL_PROXY_SERVER_ID,
            WorldHostS2CMessage::OutdatedWorldHost { .. } => OUTDATED_WORLD_HOST_ID,
            WorldHostS2CMessage::ConnectionNotFound { .. } => CONNECTION_NOT_FOUND_ID,
            WorldHostS2CMessage::NewQueryResponse { .. } => NEW_QUERY_RESPONSE_ID,
            WorldHostS2CMessage::Warning { .. } => WARNING_ID,
            WorldHostS2CMessage::PunchOpenRequest { .. } => PUNCH_OPEN_REQUEST_ID,
            WorldHostS2CMessage::CancelPortLookup { .. } => CANCEL_PORT_LOOKUP_ID,
            WorldHostS2CMessage::PortLookupSuccess { .. } => PORT_LOOKUP_SUCCESS_ID,
            WorldHostS2CMessage::PunchRequestCancelled { .. } => PUNCH_REQUEST_CANCELLED_ID,
            WorldHostS2CMessage::PunchSuccess { .. } => PUNCH_SUCCESS_ID,
        }
    }

    /// The protocol version in which the message was introduced; messages
    /// are silently dropped at send time for older peers.
    pub open spec fn spec_first_protocol(&self) -> u32 {
        spec_fp_s2c(self@)
    }

    pub fn first_protocol(&self) -> (r: u32)
        ensures
            r == self.spec_first_protocol(),
    {
        match self {
            WorldHostS2CMessage::Error { .. } => 2,
            WorldHostS2CMessage::IsOnlineTo { .. } => 2,
            WorldHostS2CMessage::OnlineGame { .. } => 2,
            WorldHostS2CMessage::FriendRequest { .. } => 2,
            WorldHostS2CMessage::PublishedWorld { .. } => 2,
            WorldHostS2CMessage::ClosedWorld { .. } => 2,
            WorldHostS2CMessage::RequestJoin { .. } => 2,
            WorldHostS2CMessage::QueryRequest { .. } => 2,
            WorldHostS2CMessage::QueryResponse { .. } => 2,
            WorldHostS2CMessage::ProxyC2SPacket { .. } => 2,
            WorldHostS2CMessage::ProxyConnect { .. } => 2,
            WorldHostS2CMessage::ProxyDisconnect { .. } => 2,
            WorldHostS2CMessage::ConnectionInfo { .. } => 2,
            WorldHostS2CMessage::ExternalProxyServer { .. } => 2,
            WorldHostS2CMessage::OutdatedWorldHost { .. } => 4,
            WorldHostS2CMessage::ConnectionNotFound { .. } => 4,
            WorldHostS2CMessage::NewQueryResponse { .. } => 5,
            WorldHostS2CMessage::Warning { .. } => 6,
            WorldHostS2CMessage::PunchOpenRequest { .. } => 7,
            WorldHostS2CMessage::CancelPortLookup { .. } => 7,
            WorldHostS2CMessage::PortLookupSuccess { .. } => 7,
            WorldHostS2CMessage::PunchRequestCancelled { .. } => 7,
            WorldHostS2CMessage::PunchSuccess { .. } => 7,
        }
    }

    /// Size limits the wire format imposes: string bytes fit in 16 bits,
    /// declared lengths match, and connection identifiers are in range.
    pub open spec fn wf(&self) -> bool {
        spec_wf_s2c(self@)
    }
}

/// The wire encoding of an IP address: octet count, then the octets.
pub open spec fn enc_ip(ip: IpAddrBytes) -> Seq<u8> {
    match ip {
        IpAddrBytes::V4(a) => seq![4u8] + a@,
        IpAddrBytes::V6(a) => seq![16u8] + a@,
    }
}

fn put_ip(out: &mut Vec<u8>, ip: &IpAddrBytes)
    ensures
        final(out)@ == old(out)@ + enc_ip(*ip),
{
    match ip {
        IpAddrBytes::V4(a) => {
            put_u8(out, 4);
            put_bytes(out, a.as_slice());
            proof {
                assert(out@ =~= old(out)@ + enc_ip(*ip));
            }
        },
        IpAddrBytes::V6(a) => {
            put_u8(out, 16);
            put_bytes(out, a.as_slice());
            proof {
                assert(out@ =~= old(out)@ + enc_ip(*ip));
            }
        },
    }
}

proof fn lemma_sp_ip_at(s: Seq<u8>, i: int, ip: IpAddrBytes)
    requires
        0 <= i,
        i + enc_ip(ip).len() <= s.len(),
        s.subrange(i, i + enc_ip(ip).len()) =~= enc_ip(ip),
    ensures
        sp_ip(s, i) == Some((ip@, i + enc_ip(ip).len())),
{
    let enc = enc_ip(ip);
    assert forall|j: int| 0 <= j < enc.len() implies s[i + j] == enc[j] by {
        assert(s.subrange(i, i + enc.len())[j] == enc[j]);
    }
    match ip {
        IpAddrBytes::V4(a) => {
            assert(s[i + 0] == enc[0]);
            assert forall|j: int| 0 <= j < 4 implies s.subrange(i + 1, i + 5)[j] == a@[j] by {
                assert(s[i + (1 + j)] == enc[1 + j]);
            }
            assert(s.subrange(i + 1, i + 5) =~= a@);
        },
        IpAddrBytes::V6(a) => {
            assert(s[i + 0] == enc[0]);
            assert forall|j: int| 0 <= j < 16 implies s.subrange(i + 1, i + 17)[j] == a@[j] by {
                assert(s[i + (1 + j)] == enc[1 + j]);
            }
            assert(s.subrange(i + 1, i + 17) =~= a@);
        },
    }
}


fn enc_error(message: &String, critical: bool) -> (r: Vec<u8>)
        requires
            encode_utf8(message@).len() <= 0xffff,
    ensures
        r@.len() <= 0xffffff20,
        r@.len() == spec_payload_len(S2CSpec::Error { message: message@, critical: critical }),
        spec_parse_s2c(ERROR_ID, r@) == Some(S2CSpec::Error { message: message@, critical: critical }),
{
    let mut out: Vec<u8> = Vec::new();
    proof {
        lemma_pow256_values();
    }
    {
                put_string(&mut out, message.as_str());
                put_u8(&mut out, if critical { 1 } else { 0 });
                proof {
                    let e1 = enc_string(message@);
                    let e2 = seq![(if critical { 1u8 } else { 0u8 })];
                    lemma_be_bytes_len(encode_utf8(message@).len(), 2);
                    let o1 = 0int;
                    let o2 = o1 + e1.len();
                    assert(out@ =~= e1 + e2);
                    assert(out@.subrange(o1, o1 + e1.len()) =~= e1);
                    lemma_sp_string_at(out@, o1, message@);
                    assert(out@.subrange(o2, o2 + 1) =~= e2);
                    assert(out@[o2] == (if critical { 1u8 } else { 0u8 })) by { assert(out@.subrange(o2, o2 + 1)[0] == out@[o2]); }
                    lemma_sp_u8_at(out@, o2, if critical { 1u8 } else { 0u8 });
                }
            }
    out
}

fn enc_isonlineto(user: Uuid) -> (r: Vec<u8>)
    ensures
        r@.len() <= 0xffffff20,
        r@.len() == spec_payload_len(S2CSpec::IsOnlineTo { user: user }),
        spec_parse_s2c(IS_ONLINE_TO_ID, r@) == Some(S2CSpec::IsOnlineTo { user: user }),
{
    let mut out: Vec<u8> = Vec::new();
    proof {
        lemma_pow256_values();
    }
    {
                put_u128(&mut out, user.raw());
                proof {
                    let e1 = be_bytes(user.value as nat, 16);
                    lemma_be_bytes_len(user.value as nat, 16);
                    let o1 = 0int;
                    assert(out@ =~= e1);
                    assert(out@.subrange(o1, o1 + 16) =~= e1);
                    lemma_sp_u128_at(out@, o1, user.value);
                    assert(Uuid { value: user.value } == user);
                }
            }
    out
}

fn enc_onlinegame(host: &String, port: u16, owner_cid: ConnectionId) -> (r: Vec<u8>)
        requires
            encode_utf8(host@).len() <= 0xffff,
            owner_cid.wf(),
    ensures
        r@.len() <= 0xffffff20,
        r@.len() == spec_payload_len(S2CSpec::OnlineGame { host: host@, port: port, owner_cid: owner_cid }),
        spec_parse_s2c(ONLINE_GAME_ID, r@) == Some(S2CSpec::OnlineGame { host: host@, port: port, owner_cid: owner_cid }),
{
    let mut out: Vec<u8> = Vec::new();
    proof {
        lemma_pow256_values();
    }
    {
                put_string(&mut out, host.as_str());
                put_u16(&mut out, port);
                put_u64(&mut out, owner_cid.raw());
                put_u8(&mut out, 0);
                proof {
                    let e1 = enc_string(host@);
                    let e2 = be_bytes((port) as nat, 2);
                    let e3 = be_bytes(owner_cid.spec_id() as nat, 8);
                    let e4 = seq![0u8];
                    lemma_be_bytes_len(encode_utf8(host@).len(), 2);
                    lemma_be_bytes_len((port) as nat, 2);
                    lemma_be_bytes_len(owner_cid.spec_id() as nat, 8);
                    let o1 = 0int;
                    let o2 = o1 + e1.len();
                    let o3 = o2 + e2.len();
                    let o4 = o3 + e3.len();
                    assert(out@ =~= e1 + e2 + e3 + e4);
                    assert(out@.subrange(o1, o1 + e1.len()) =~= e1);
                    lemma_sp_string_at(out@, o1, host@);
                    assert(out@.subrange(o2, o2 + 2) =~= e2);
                    lemma_sp_u16_at(out@, o2, port);
                    assert(out@.subrange(o3, o3 + 8) =~= e3);
                    lemma_sp_u64_at(out@, o3, owner_cid.spec_id());
                    ConnectionId::lemma_eq(owner_cid, owner_cid);
                    assert(out@.subrange(o4, o4 + 1) =~= e4);
                    assert(out@[o4] == 0u8) by { assert(out@.subrange(o4, o4 + 1)[0] == out@[o4]); }
                    lemma_sp_u8_at(out@, o4, 0u8);
                }
            }
    out
}

fn enc_friendrequest(from_user: Uuid, security: SecurityLevel) -> (r: Vec<u8>)
    ensures
        r@.len() <= 0xffffff20,
        r@.len() == spec_payload_len(S2CSpec::FriendRequest { from_user: from_user, security: security }),
        spec_parse_s2c(FRIEND_REQUEST_ID, r@) == Some(S2CSpec::FriendRequest { from_user: from_user, security: security }),
{
    let mut out: Vec<u8> = Vec::new();
    proof {
        lemma_pow256_values();
    }
    {
                put_u128(&mut out, from_user.raw());
                put_u8(&mut out, security.wire_byte());
                proof {
                    let e1 = be_bytes(from_user.value as nat, 16);
                    let e2 = seq![security.spec_wire_byte()];
                    lemma_be_bytes_len(from_user.value as nat, 16);
                    let o1 = 0int;
                    let o2 = o1 + e1.len();
                    assert(out@ =~= e1 + e2);
                    assert(out@.subrange(o1, o1 + 16) =~= e1);
                    lemma_sp_u128_at(out@, o1, from_user.value);
                    assert(Uuid { value: from_user.value } == from_user);
                    assert(out@.subrange(o2, o2 + 1) =~= e2);
                    assert(out@[o2] == security.spec_wire_byte()) by { assert(out@.subrange(o2, o2 + 1)[0] == out@[o2]); }
                    lemma_sp_security_at(out@, o2, security);
                }
            }
    out
}

fn enc_publishedworld(user: Uuid, connection_id: ConnectionId, security: SecurityLevel) -> (r: Vec<u8>)
        requires
            connection_id.wf(),
    ensures
        r@.len() <= 0xffffff20,
        r@.len() == spec_payload_len(S2CSpec::PublishedWorld { user: user, connection_id: connection_id, security: security }),
        spec_parse_s2c(PUBLISHED_WORLD_ID, r@) == Some(S2CSpec::PublishedWorld { user: user, connection_id: connection_id, security: security }),
{
    let mut out: Vec<u8> = Vec::new();
    proof {
        lemma_pow256_values();
    }
    {
                put_u128(&mut out, user.raw());
                put_u64(&mut out, connection_id.raw());
                put_u8(&mut out, security.wire_byte());
                proof {
                    let e1 = be_bytes(user.value as nat, 16);
                    let e2 = be_bytes(connection_id.spec_id() as nat, 8);
                    let e3 = seq![security.spec_wire_byte()];
                    lemma_be_bytes_len(user.value as nat, 16);
                    lemma_be_bytes_len(connection_id.spec_id() as nat, 8);
                    let o1 = 0int;
                    let o2 = o1 + e1.len();
                    let o3 = o2 + e2.len();
                    assert(out@ =~= e1 + e2 + e3);
                    assert(out@.subrange(o1, o1 + 16) =~= e1);
                    lemma_sp_u128_at(out@, o1, user.value);
                    assert(Uuid { value: user.value } == user);
                    assert(out@.subrange(o2, o2 + 8) =~= e2);
                    lemma_sp_u64_at(out@, o2, connection_id.spec_id());
                    ConnectionId::lemma_eq(connection_id, connection_id);
                    assert(out@.subrange(o3, o3 + 1) =~= e3);
                    assert(out@[o3] == security.spec_wire_byte()) by { assert(out@.subrange(o3, o3 + 1)[0] == out@[o3]); }
                    lemma_sp_security_at(out@, o3, security);
                }
            }
    out
}

fn enc_closedworld(user: Uuid) -> (r: Vec<u8>)
    ensures
        r@.len() <= 0xffffff20,
        r@.len() == spec_payload_len(S2CSpec::ClosedWorld { user: user }),
        spec_parse_s2c(CLOSED_WORLD_ID, r@) == Some(S2CSpec::ClosedWorld { user: user }),
{
    let mut out: Vec<u8> = Vec::new();
    proof {
        lemma_pow256_values();
    }
    {
                put_u128(&mut out, user.raw());
                proof {
                    let e1 = be_bytes(user.value as nat, 16);
                    lemma_be_bytes_len(user.value as nat, 16);
                    let o1 = 0int;
                    assert(out@ =~= e1);
                    assert(out@.subrange(o1, o1 + 16) =~= e1);
                    lemma_sp_u128_at(out@, o1, user.value);
                    assert(Uuid { value: user.value } == user);
                }
            }
    out
}

fn enc_requestjoin(user: Uuid, connection_id: ConnectionId, security: SecurityLevel) -> (r: Vec<u8>)
        requires
            connection_id.wf(),
    ensures
        r@.len() <= 0xffffff20,
        r@.len() == spec_payload_len(S2CSpec::RequestJoin { user: user, connection_id: connection_id, security: security }),
        spec_parse_s2c(REQUEST_JOIN_ID, r@) == Some(S2CSpec::RequestJoin { user: user, connection_id: connection_id, security: security }),
{
    let mut out: Vec<u8> = Vec::new();
    proof {
        lemma_pow256_values();
    }
    {
                put_u128(&mut out, user.raw());
                put_u64(&mut out, connection_id.raw());
                put_u8(&mut out, security.wire_byte());
                proof {
                    let e1 = be_bytes(user.value as nat, 16);
                    let e2 = be_bytes(connection_id.spec_id() as nat, 8);
                    let e3 = seq![security.spec_wire_byte()];
                    lemma_be_bytes_len(user.value as nat, 16);
                    lemma_be_bytes_len(connection_id.spec_id() as nat, 8);
                    let o1 = 0int;
                    let o2 = o1 + e1.len();
                    let o3 = o2 + e2.len();
                    assert(out@ =~= e1 + e2 + e3);
                    assert(out@.subrange(o1, o1 + 16) =~= e1);
                    lemma_sp_u128_at(out@, o1, user.value);
                    assert(Uuid { value: user.value } == user);
                    assert(out@.subrange(o2, o2 + 8) =~= e2);
                    lemma_sp_u64_at(out@, o2, connection_id.spec_id());
                    ConnectionId::lemma_eq(connection_id, connection_id);
                    assert(out@.subrange(o3, o3 + 1) =~= e3);
                    assert(out@[o3] == security.spec_wire_byte()) by { assert(out@.subrange(o3, o3 + 1)[0] == out@[o3]); }
                    lemma_sp_security_at(out@, o3, security);
                }
            }
    out
}

fn enc_queryrequest(friend: Uuid, connection_id: ConnectionId, security: SecurityLevel) -> (r: Vec<u8>)
        requires
            connection_id.wf(),
    ensures
        r@.len() <= 0xffffff20,
        r@.len() == spec_payload_len(S2CSpec::QueryRequest { friend: friend, connection_id: connection_id, security: security }),
        spec_parse_s2c(QUERY_REQUEST_ID, r@) == Some(S2CSpec::QueryRequest { friend: friend, connection_id: connection_id, security: security }),
{
    let mut out: Vec<u8> = Vec::new();
    proof {
        lemma_pow256_values();
    }
    {
                put_u128(&mut out, friend.raw());
                put_u64(&mut out, connection_id.raw());
                put_u8(&mut out, security.wire_byte());
                proof {
                    let e1 = be_bytes(friend.value as nat, 16);
                    let e2 = be_bytes(connection_id.spec_id() as nat, 8);
                    let e3 = seq![security.spec_wire_byte()];
                    lemma_be_bytes_len(friend.value as nat, 16);
                    lemma_be_bytes_len(connection_id.spec_id() as nat, 8);
                    let o1 = 0int;
                    let o2 = o1 + e1.len();
                    let o3 = o2 + e2.len();
                    assert(out@ =~= e1 + e2 + e3);
                    assert(out@.subrange(o1, o1 + 16) =~= e1);
                    lemma_sp_u128_at(out@, o1, friend.value);
                    assert(Uuid { value: friend.value } == friend);
                    assert(out@.subrange(o2, o2 + 8) =~= e2);
                    lemma_sp_u64_at(out@, o2, connection_id.spec_id());
                    ConnectionId::lemma_eq(connection_id, connection_id);
                    assert(out@.subrange(o3, o3 + 1) =~= e3);
                    assert(out@[o3] == security.spec_wire_byte()) by { assert(out@.subrange(o3, o3 + 1)[0] == out@[o3]); }
                    lemma_sp_security_at(out@, o3, security);
                }
            }
    out
}

fn enc_queryresponse(friend: Uuid, length: u32, data: &Vec<u8>) -> (r: Vec<u8>)
        requires
            length == data@.len(),
            data@.len() <= 0xffffff00,
    ensures
        r@.len() <= 0xffffff20,
        r@.len() == spec_payload_len(S2CSpec::QueryResponse { friend: friend, length: length, data: data@ }),
        spec_parse_s2c(QUERY_RESPONSE_ID, r@) == Some(S2CSpec::QueryResponse { friend: friend, length: length, data: data@ }),
{
    let mut out: Vec<u8> = Vec::new();
    proof {
        lemma_pow256_values();
    }
    {
                put_u128(&mut out, friend.raw());
                put_u32(&mut out, length);
                put_bytes(&mut out, data.as_slice());
                proof {
                    let e1 = be_bytes(friend.value as nat, 16);
                    let e2 = be_bytes((length) as nat, 4);
                    let e3 = data@;
                    lemma_be_bytes_len(friend.value as nat, 16);
                    lemma_be_bytes_len((length) as nat, 4);
                    let o1 = 0int;
                    let o2 = o1 + e1.len();
                    let o3 = o2 + e2.len();
                    assert(out@ =~= e1 + e2 + e3);
                    assert(out@.subrange(o1, o1 + 16) =~= e1);
                    lemma_sp_u128_at(out@, o1, friend.value);
                    assert(Uuid { value: friend.value } == friend);
                    assert(out@.subrange(o2, o2 + 4) =~= e2);
                    lemma_sp_u32_at(out@, o2, length);
                    assert(out@.subrange(o3, o3 + data@.len()) =~= data@);
                }
            }
    out
}

fn enc_proxyc2spacket(connection_id: u64, data: &Vec<u8>) -> (r: Vec<u8>)
    requires
        data@.len() <= 0xffffff00,
    ensures
        r@.len() <= 0xffffff20,
        r@.len() == spec_payload_len(S2CSpec::ProxyC2SPacket { connection_id: connection_id, data: data@ }),
        spec_parse_s2c(PROXY_C2S_PACKET_ID, r@) == Some(S2CSpec::ProxyC2SPacket { connection_id: connection_id, data: data@ }),
{
    let mut out: Vec<u8> = Vec::new();
    proof {
        lemma_pow256_values();
    }
    {
                put_u64(&mut out, connection_id);
                put_bytes(&mut out, data.as_slice());
                proof {
                    let e1 = be_bytes((connection_id) as nat, 8);
                    let e2 = data@;
                    lemma_be_bytes_len((connection_id) as nat, 8);
                    let o1 = 0int;
                    let o2 = o1 + e1.len();
                    assert(out@ =~= e1 + e2);
                    assert(out@.subrange(o1, o1 + 8) =~= e1);
                    lemma_sp_u64_at(out@, o1, connection_id);
                    assert(sp_rest(out@, o2) =~= data@);
                }
            }
    out
}

fn enc_proxyconnect(connection_id: u64, remote_addr: &IpAddrBytes) -> (r: Vec<u8>)
    ensures
        r@.len() <= 0xffffff20,
        r@.len() == spec_payload_len(S2CSpec::ProxyConnect { connection_id: connection_id, remote_addr: remote_addr@ }),
        spec_parse_s2c(PROXY_CONNECT_ID, r@) == Some(S2CSpec::ProxyConnect { connection_id: connection_id, remote_addr: remote_addr@ }),
{
    let mut out: Vec<u8> = Vec::new();
    proof {
        lemma_pow256_values();
    }
    {
                put_u64(&mut out, connection_id);
                put_ip(&mut out, remote_addr);
                proof {
                    let e1 = be_bytes((connection_id) as nat, 8);
                    let e2 = enc_ip(*remote_addr);
                    lemma_be_bytes_len((connection_id) as nat, 8);
                    let o1 = 0int;
                    let o2 = o1 + e1.len();
                    assert(out@ =~= e1 + e2);
                    assert(out@.subrange(o1, o1 + 8) =~= e1);
                    lemma_sp_u64_at(out@, o1, connection_id);
                    assert(out@.subrange(o2, o2 + e2.len()) =~= e2);
                    lemma_sp_ip_at(out@, o2, *remote_addr);
                }
            }
    out
}

fn enc_proxydisconnect(connection_id: u64) -> (r: Vec<u8>)
    ensures
        r@.len() <= 0xffffff20,
        r@.len() == spec_payload_len(S2CSpec::ProxyDisconnect { connection_id: connection_id }),
        spec_parse_s2c(PROXY_DISCONNECT_ID, r@) == Some(S2CSpec::ProxyDisconnect { connection_id: connection_id }),
{
    let mut out: Vec<u8> = Vec::new();
    proof {
        lemma_pow256_values();
    }
    {
                put_u64(&mut out, connection_id);
                proof {
                    let e1 = be_bytes((connection_id) as nat, 8);
                    lemma_be_bytes_len((connection_id) as nat, 8);
                    let o1 = 0int;
                    assert(out@ =~= e1);
                    assert(out@.subrange(o1, o1 + 8) =~= e1);
                    lemma_sp_u64_at(out@, o1, connection_id);
                }
            }
    out
}

fn enc_connectioninfo(connection_id: ConnectionId, base_ip: &String, base_port: u16, user_ip: &String, protocol_version: u32, punch_port: u16) -> (r: Vec<u8>)
        requires
            connection_id.wf(),
            encode_utf8(base_ip@).len() <= 0xffff,
            encode_utf8(user_ip@).len() <= 0xffff,
    ensures
        r@.len() <= 0xffffff20,
        r@.len() == spec_payload_len(S2CSpec::ConnectionInfo { connection_id: connection_id, base_ip: base_ip@, base_port: base_port, user_ip: user_ip@, protocol_version: protocol_version, punch_port: punch_port }),
        spec_parse_s2c(CONNECTION_INFO_ID, r@) == Some(S2CSpec::ConnectionInfo { connection_id: connection_id, base_ip: base_ip@, base_port: base_port, user_ip: user_ip@, protocol_version: protocol_version, punch_port: punch_port }),
{
    let mut out: Vec<u8> = Vec::new();
    proof {
        lemma_pow256_values();
    }
    {
                put_u64(&mut out, connection_id.raw());
                put_string(&mut out, base_ip.as_str());
                put_u16(&mut out, base_port);
                put_string(&mut out, user_ip.as_str());
                put_u32(&mut out, protocol_version);
                put_u16(&mut out, punch_port);
                proof {
                    let e1 = be_bytes(connection_id.spec_id() as nat, 8);
                    let e2 = enc_string(base_ip@);
                    let e3 = be_bytes((base_port) as nat, 2);
                    let e4 = enc_string(user_ip@);
                    let e5 = be_bytes((protocol_version) as nat, 4);
                    let e6 = be_bytes((punch_port) as nat, 2);
                    lemma_be_bytes_len(connection_id.spec_id() as nat, 8);
                    lemma_be_bytes_len(encode_utf8(base_ip@).len(), 2);
                    lemma_be_bytes_len((base_port) as nat, 2);
                    lemma_be_bytes_len(encode_utf8(user_ip@).len(), 2);
                    lemma_be_bytes_len((protocol_version) as nat, 4);
                    lemma_be_bytes_len((punch_port) as nat, 2);
                    let o1 = 0int;
                    let o2 = o1 + e1.len();
                    let o3 = o2 + e2.len();
                    let o4 = o3 + e3.len();
                    let o5 = o4 + e4.len();
                    let o6 = o5 + e5.len();
                    assert(out@ =~= e1 + e2 + e3 + e4 + e5 + e6);
                    assert(out@.subrange(o1, o1 + 8) =~= e1);
                    lemma_sp_u64_at(out@, o1, connection_id.spec_id());
                    ConnectionId::lemma_eq(connection_id, connection_id);
                    assert(out@.subrange(o2, o2 + e2.len()) =~= e2);
                    lemma_sp_string_at(out@, o2, base_ip@);
                    assert(out@.subrange(o3, o3 + 2) =~= e3);
                    lemma_sp_u16_at(out@, o3, base_port);
                    assert(out@.subrange(o4, o4 + e4.len()) =~= e4);
                    lemma_sp_string_at(out@, o4, user_ip@);
                    assert(out@.subrange(o5, o5 + 4) =~= e5);
                    lemma_sp_u32_at(out@, o5, protocol_version);
                    assert(out@.subrange(o6, o6 + 2) =~= e6);
                    lemma_sp_u16_at(out@, o6, punch_port);
                }
            }
    out
}

fn enc_externalproxyserver(host: &String, port: u16, base_addr: &String, mc_port: u16) -> (r: Vec<u8>)
        requires
            encode_utf8(host@).len() <= 0xffff,
            encode_utf8(base_addr@).len() <= 0xffff,
    ensures
        r@.len() <= 0xffffff20,
        r@.len() == spec_payload_len(S2CSpec::ExternalProxyServer { host: host@, port: port, base_addr: base_addr@, mc_port: mc_port }),
        spec_parse_s2c(EXTERNAL_PROXY_SERVER_ID, r@) == Some(S2CSpec::ExternalProxyServer { host: host@, port: port, base_addr: base_addr@, mc_port: mc_port }),
{
    let mut out: Vec<u8> = Vec::new();
    proof {
        lemma_pow256_values();
    }
    {
                put_string(&mut out, host.as_str());
                put_u16(&mut out, port);
                put_string(&mut out, base_addr.as_str());
                put_u16(&mut out, mc_port);
                proof {
                    let e1 = enc_string(host@);
                    let e2 = be_bytes((port) as nat, 2);
                    let e3 = enc_string(base_addr@);
                    let e4 = be_bytes((mc_port) as nat, 2);
                    lemma_be_bytes_len(encode_utf8(host@).len(), 2);
                    lemma_be_bytes_len((port) as nat, 2);
                    lemma_be_bytes_len(encode_utf8(base_addr@).len(), 2);
                    lemma_be_bytes_len((mc_port) as nat, 2);
                    let o1 = 0int;
                    let o2 = o1 + e1.len();
                    let o3 = o2 + e2.len();
                    let o4 = o3 + e3.len();
                    assert(out@ =~= e1 + e2 + e3 + e4);
                    assert(out@.subrange(o1, o1 + e1.len()) =~= e1);
                    lemma_sp_string_at(out@, o1, host@);
                    assert(out@.subrange(o2, o2 + 2) =~= e2);
                    lemma_sp_u16_at(out@, o2, port);
                    assert(out@.subrange(o3, o3 + e3.len()) =~= e3);
                    lemma_sp_string_at(out@, o3, base_addr@);
                    assert(out@.subrange(o4, o4 + 2) =~= e4);
                    lemma_sp_u16_at(out@, o4, mc_port);
                }
            }
    out
}

fn enc_outdatedworldhost(recommended_version: &String) -> (r: Vec<u8>)
        requires
            encode_utf8(recommended_version@).len() <= 0xffff,
    ensures
        r@.len() <= 0xffffff20,
        r@.len() == spec_payload_len(S2CSpec::OutdatedWorldHost { recommended_version: recommended_version@ }),
        spec_parse_s2c(OUTDATED_WORLD_HOST_ID, r@) == Some(S2CSpec::OutdatedWorldHost { recommended_version: recommended_version@ }),
{
    let mut out: Vec<u8> = Vec::new();
    proof {
        lemma_pow256_values();
    }
    {
                put_string(&mut out, recommended_version.as_str());
                proof {
                    let e1 = enc_string(recommended_version@);
                    lemma_be_bytes_len(encode_utf8(recommended_version@).len(), 2);
                    let o1 = 0int;
                    assert(out@ =~= e1);
                    assert(out@.subrange(o1, o1 + e1.len()) =~= e1);
                    lemma_sp_string_at(out@, o1, recommended_version@);
                }
            }
    out
}

fn enc_connectionnotfound(connection_id: ConnectionId) -> (r: Vec<u8>)
        requires
            connection_id.wf(),
    ensures
        r@.len() <= 0xffffff20,
        r@.len() == spec_payload_len(S2CSpec::ConnectionNotFound { connection_id: connection_id }),
        spec_parse_s2c(CONNECTION_NOT_FOUND_ID, r@) == Some(S2CSpec::ConnectionNotFound { connection_id: connection_id }),
{
    let mut out: Vec<u8> = Vec::new();
    proof {
        lemma_pow256_values();
    }
    {
                put_u64(&mut out, connection_id.raw());
                proof {
                    let e1 = be_bytes(connection_id.spec_id() as nat, 8);
                    lemma_be_bytes_len(connection_id.spec_id() as nat, 8);
                    let o1 = 0int;
                    assert(out@ =~= e1);
                    assert(out@.subrange(o1, o1 + 8) =~= e1);
                    lemma_sp_u64_at(out@, o1, connection_id.spec_id());
                    ConnectionId::lemma_eq(connection_id, connection_id);
                }
            }
    out
}

fn enc_newqueryresponse(friend: Uuid, data: &Vec<u8>) -> (r: Vec<u8>)
    requires
        data@.len() <= 0xffffff00,
    ensures
        r@.len() <= 0xffffff20,
        r@.len() == spec_payload_len(S2CSpec::NewQueryResponse { friend: friend, data: data@ }),
        spec_parse_s2c(NEW_QUERY_RESPONSE_ID, r@) == Some(S2CSpec::NewQueryResponse { friend: friend, data: data@ }),
{
    let mut out: Vec<u8> = Vec::new();
    proof {
        lemma_pow256_values();
    }
    {
                put_u128(&mut out, friend.raw());
                put_bytes(&mut out, data.as_slice());
                proof {
                    let e1 = be_bytes(friend.value as nat, 16);
                    let e2 = data@;
                    lemma_be_bytes_len(friend.value as nat, 16);
                    let o1 = 0int;
                    let o2 = o1 + e1.len();
                    assert(out@ =~= e1 + e2);
                    assert(out@.subrange(o1, o1 + 16) =~= e1);
                    lemma_sp_u128_at(out@, o1, friend.value);
                    assert(Uuid { value: friend.value } == friend);
                    assert(sp_rest(out@, o2) =~= data@);
                }
            }
    out
}

fn enc_warning(message: &String, important: bool) -> (r: Vec<u8>)
        requires
            encode_utf8(message@).len() <= 0xffff,
    ensures
        r@.len() <= 0xffffff20,
        r@.len() == spec_payload_len(S2CSpec::Warning { message: message@, important: important }),
        spec_parse_s2c(WARNING_ID, r@) == Some(S2CSpec::Warning { message: message@, important: important }),
{
    let mut out: Vec<u8> = Vec::new();
    proof {
        lemma_pow256_values();
    }
    {
                put_string(&mut out, message.as_str());
                put_u8(&mut out, if important { 1 } else { 0 });
                proof {
                    let e1 = enc_string(message@);
                    let e2 = seq![(if important { 1u8 } else { 0u8 })];
                    lemma_be_bytes_len(encode_utf8(message@).len(), 2);
                    let o1 = 0int;
                    let o2 = o1 + e1.len();
                    assert(out@ =~= e1 + e2);
                    assert(out@.subrange(o1, o1 + e1.len()) =~= e1);
                    lemma_sp_string_at(out@, o1, message@);
                    assert(out@.subrange(o2, o2 + 1) =~= e2);
                    assert(out@[o2] == (if important { 1u8 } else { 0u8 })) by { assert(out@.subrange(o2, o2 + 1)[0] == out@[o2]); }
                    lemma_sp_u8_at(out@, o2, if important { 1u8 } else { 0u8 });
                }
            }
    out
}

fn enc_punchopenrequest(punch_id: Uuid, purpose: &String, from_host: &String, from_port: u16, connection_id: ConnectionId, user: Uuid, security: SecurityLevel) -> (r: Vec<u8>)
        requires
            encode_utf8(purpose@).len() <= 0xffff,
            encode_utf8(from_host@).len() <= 0xffff,
            connection_id.wf(),
    ensures
        r@.len() <= 0xffffff20,
        r@.len() == spec_payload_len(S2CSpec::PunchOpenRequest { punch_id: punch_id, purpose: purpose@, from_host: from_host@, from_port: from_port, connection_id: connection_id, user: user, security: security }),
        spec_parse_s2c(PUNCH_OPEN_REQUEST_ID, r@) == Some(S2CSpec::PunchOpenRequest { punch_id: punch_id, purpose: purpose@, from_host: from_host@, from_port: from_port, connection_id: connection_id, user: user, security: security }),
{
    let mut out: Vec<u8> = Vec::new();
    proof {
        lemma_pow256_values();
    }
    {
                put_u128(&mut out, punch_id.raw());
                put_string(&mut out, purpose.as_str());
                put_string(&mut out, from_host.as_str());
                put_u16(&mut out, from_port);
                put_u64(&mut out, connection_id.raw());
                put_u128(&mut out, user.raw());
                put_u8(&mut out, security.wire_byte());
                proof {
                    let e1 = be_bytes(punch_id.value as nat, 16);
                    let e2 = enc_string(purpose@);
                    let e3 = enc_string(from_host@);
                    let e4 = be_bytes((from_port) as nat, 2);
                    let e5 = be_bytes(connection_id.spec_id() as nat, 8);
                    let e6 = be_bytes(user.value as nat, 16);
                    let e7 = seq![security.spec_wire_byte()];
                    lemma_be_bytes_len(punch_id.value as nat, 16);
                    lemma_be_bytes_len(encode_utf8(purpose@).len(), 2);
                    lemma_be_bytes_len(encode_utf8(from_host@).len(), 2);
                    lemma_be_bytes_len((from_port) as nat, 2);
                    lemma_be_bytes_len(connection_id.spec_id() as nat, 8);
                    lemma_be_bytes_len(user.value as nat, 16);
                    let o1 = 0int;
                    let o2 = o1 + e1.len();
                    let o3 = o2 + e2.len();
                    let o4 = o3 + e3.len();
                    let o5 = o4 + e4.len();
                    let o6 = o5 + e5.len();
                    let o7 = o6 + e6.len();
                    assert(out@ =~= e1 + e2 + e3 + e4 + e5 + e6 + e7);
                    assert(out@.subrange(o1, o1 + 16) =~= e1);
                    lemma_sp_u128_at(out@, o1, punch_id.value);
                    assert(Uuid { value: punch_id.value } == punch_id);
                    assert(out@.subrange(o2, o2 + e2.len()) =~= e2);
                    lemma_sp_string_at(out@, o2, purpose@);
                    assert(out@.subrange(o3, o3 + e3.len()) =~= e3);
                    lemma_sp_string_at(out@, o3, from_host@);
                    assert(out@.subrange(o4, o4 + 2) =~= e4);
                    lemma_sp_u16_at(out@, o4, from_port);
                    assert(out@.subrange(o5, o5 + 8) =~= e5);
                    lemma_sp_u64_at(out@, o5, connection_id.spec_id());
                    ConnectionId::lemma_eq(connection_id, connection_id);
                    assert(out@.subrange(o6, o6 + 16) =~= e6);
                    lemma_sp_u128_at(out@, o6, user.value);
                    assert(Uuid { value: user.value } == user);
                    assert(out@.subrange(o7, o7 + 1) =~= e7);
                    assert(out@[o7] == security.spec_wire_byte()) by { assert(out@.subrange(o7, o7 + 1)[0] == out@[o7]); }
                    lemma_sp_security_at(out@, o7, security);
                }
            }
    out
}

fn enc_cancelportlookup(lookup_id: Uuid) -> (r: Vec<u8>)
    ensures
        r@.len() <= 0xffffff20,
        r@.len() == spec_payload_len(S2CSpec::CancelPortLookup { lookup_id: lookup_id }),
        spec_parse_s2c(CANCEL_PORT_LOOKUP_ID, r@) == Some(S2CSpec::CancelPortLookup { lookup_id: lookup_id }),
{
    let mut out: Vec<u8> = Vec::new();
    proof {
        lemma_pow256_values();
    }
    {
                put_u128(&mut out, lookup_id.raw());
                proof {
                    let e1 = be_bytes(lookup_id.value as nat, 16);
                    lemma_be_bytes_len(lookup_id.value as nat, 16);
                    let o1 = 0int;
                    assert(out@ =~= e1);
                    assert(out@.subrange(o1, o1 + 16) =~= e1);
                    lemma_sp_u128_at(out@, o1, lookup_id.value);
                    assert(Uuid { value: lookup_id.value } == lookup_id);
                }
            }
    out
}

fn enc_portlookupsuccess(lookup_id: Uuid, host: &String, port: u16) -> (r: Vec<u8>)
        requires
            encode_utf8(host@).len() <= 0xffff,
    ensures
        r@.len() <= 0xffffff20,
        r@.len() == spec_payload_len(S2CSpec::PortLookupSuccess { lookup_id: lookup_id, host: host@, port: port }),
        spec_parse_s2c(PORT_LOOKUP_SUCCESS_ID, r@) == Some(S2CSpec::PortLookupSuccess { lookup_id: lookup_id, host: host@, port: port }),
{
    let mut out: Vec<u8> = Vec::new();
    proof {
        lemma_pow256_values();
    }
    {
                put_u128(&mut out, lookup_id.raw());
                put_string(&mut out, host.as_str());
                put_u16(&mut out, port);
                proof {
                    let e1 = be_bytes(lookup_id.value as nat, 16);
                    let e2 = enc_string(host@);
                    let e3 = be_bytes((port) as nat, 2);
                    lemma_be_bytes_len(lookup_id.value as nat, 16);
                    lemma_be_bytes_len(encode_utf8(host@).len(), 2);
                    lemma_be_bytes_len((port) as nat, 2);
                    let o1 = 0int;
                    let o2 = o1 + e1.len();
                    let o3 = o2 + e2.len();
                    assert(out@ =~= e1 + e2 + e3);
                    assert(out@.subrange(o1, o1 + 16) =~= e1);
                    lemma_sp_u128_at(out@, o1, lookup_id.value);
                    assert(Uuid { value: lookup_id.value } == lookup_id);
                    assert(out@.subrange(o2, o2 + e2.len()) =~= e2);
                    lemma_sp_string_at(out@, o2, host@);
                    assert(out@.subrange(o3, o3 + 2) =~= e3);
                    lemma_sp_u16_at(out@, o3, port);
                }
            }
    out
}

fn enc_punchrequestcancelled(punch_id: Uuid) -> (r: Vec<u8>)
    ensures
        r@.len() <= 0xffffff20,
        r@.len() == spec_payload_len(S2CSpec::PunchRequestCancelled { punch_id: punch_id }),
        spec_parse_s2c(PUNCH_REQUEST_CANCELLED_ID, r@) == Some(S2CSpec::PunchRequestCancelled { punch_id: punch_id }),
{
    let mut out: Vec<u8> = Vec::new();
    proof {
        lemma_pow256_values();
    }
    {
                put_u128(&mut out, punch_id.raw());
                proof {
                    let e1 = be_bytes(punch_id.value as nat, 16);
                    lemma_be_bytes_len(punch_id.value as nat, 16);
                    let o1 = 0int;
                    assert(out@ =~= e1);
                    assert(out@.subrange(o1, o1 + 16) =~= e1);
                    lemma_sp_u128_at(out@, o1, punch_id.value);
                    assert(Uuid { value: punch_id.value } == punch_id);
                }
            }
    out
}

fn enc_punchsuccess(punch_id: Uuid, host: &String, port: u16) -> (r: Vec<u8>)
        requires
            encode_utf8(host@).len() <= 0xffff,
    ensures
        r@.len() <= 0xffffff20,
        r@.len() == spec_payload_len(S2CSpec::PunchSuccess { punch_id: punch_id, host: host@, port: port }),
        spec_parse_s2c(PUNCH_SUCCESS_ID, r@) == Some(S2CSpec::PunchSuccess { punch_id: punch_id, host: host@, port: port }),
{
    let mut out: Vec<u8> = Vec::new();
    proof {
        lemma_pow256_values();
    }
    {
                put_u128(&mut out, punch_id.raw());
                put_string(&mut out, host.as_str());
                put_u16(&mut out, port);
                proof {
                    let e1 = be_bytes(punch_id.value as nat, 16);
                    let e2 = enc_string(host@);
                    let e3 = be_bytes((port) as nat, 2);
                    lemma_be_bytes_len(punch_id.value as nat, 16);
                    lemma_be_bytes_len(encode_utf8(host@).len(), 2);
                    lemma_be_bytes_len((port) as nat, 2);
                    let o1 = 0int;
                    let o2 = o1 + e1.len();
                    let o3 = o2 + e2.len();
                    assert(out@ =~= e1 + e2 + e3);
                    assert(out@.subrange(o1, o1 + 16) =~= e1);
                    lemma_sp_u128_at(out@, o1, punch_id.value);
                    assert(Uuid { value: punch_id.value } == punch_id);
                    assert(out@.subrange(o2, o2 + e2.len()) =~= e2);
                    lemma_sp_string_at(out@, o2, host@);
                    assert(out@.subrange(o3, o3 + 2) =~= e3);
                    lemma_sp_u16_at(out@, o3, port);
                }
            }
    out
}

impl WorldHostS2CMessage {
    /// Encodes the message payload. The bytes produced parse back to this
    /// very message: see the `ensures` clause.
    pub fn encode_payload(&self) -> (r: Vec<u8>)
        requires
            self.wf(),
        ensures
            r@.len() <= 0xffffff20,
            r@.len() == spec_payload_len(self@),
            spec_parse_s2c(self.spec_type_id(), r@) == Some(self@),
    {
        match self {
            WorldHostS2CMessage::Error { message, critical } => enc_error(message, *critical),
            WorldHostS2CMessage::IsOnlineTo { user } => enc_isonlineto(*user),
            WorldHostS2CMessage::OnlineGame { host, port, owner_cid } => enc_onlinegame(host, *port, *owner_cid),
            WorldHostS2CMessage::FriendRequest { from_user, security } => enc_friendrequest(*from_user, *security),
            WorldHostS2CMessage::PublishedWorld { user, connection_id, security } => enc_publishedworld(*user, *connection_id, *security),
            WorldHostS2CMessage::ClosedWorld { user } => enc_closedworld(*user),
            WorldHostS2CMessage::RequestJoin { user, connection_id, security } => enc_requestjoin(*user, *connection_id, *security),
            WorldHostS2CMessage::QueryRequest { friend, connection_id, security } => enc_queryrequest(*friend, *connection_id, *security),
            WorldHostS2CMessage::QueryResponse { friend, length, data } => enc_queryresponse(*friend, *length, data),
            WorldHostS2CMessage::ProxyC2SPacket { connection_id, data } => enc_proxyc2spacket(*connection_id, data),
            WorldHostS2CMessage::ProxyConnect { connection_id, remote_addr } => enc_proxyconnect(*connection_id, remote_addr),
            WorldHostS2CMessage::ProxyDisconnect { connection_id } => enc_proxydisconnect(*connection_id),
            WorldHostS2CMessage::ConnectionInfo { connection_id, base_ip, base_port, user_ip, protocol_version, punch_port } => enc_connectioninfo(*connection_id, base_ip, *base_port, user_ip, *protocol_version, *punch_port),
            WorldHostS2CMessage::ExternalProxyServer { host, port, base_addr, mc_port } => enc_externalproxyserver(host, *port, base_addr, *mc_port),
            WorldHostS2CMessage::OutdatedWorldHost { recommended_version } => enc_outdatedworldhost(recommended_version),
            WorldHostS2CMessage::ConnectionNotFound { connection_id } => enc_connectionnotfound(*connection_id),
            WorldHostS2CMessage::NewQueryResponse { friend, data } => enc_newqueryresponse(*friend, data),
            WorldHostS2CMessage::Warning { message, important } => enc_warning(message, *important),
            WorldHostS2CMessage::PunchOpenRequest { punch_id, purpose, from_host, from_port, connection_id, user, security } => enc_punchopenrequest(*punch_id, purpose, from_host, *from_port, *connection_id, *user, *security),
            WorldHostS2CMessage::CancelPortLookup { lookup_id } => enc_cancelportlookup(*lookup_id),
            WorldHostS2CMessage::PortLookupSuccess { lookup_id, host, port } => enc_portlookupsuccess(*lookup_id, host, *port),
            WorldHostS2CMessage::PunchRequestCancelled { punch_id } => enc_punchrequestcancelled(*punch_id),
            WorldHostS2CMessage::PunchSuccess { punch_id, host, port } => enc_punchsuccess(*punch_id, host, *port),
        }
    }
}


fn str_fits(s: &String) -> (r: bool)
    ensures
        r <==> encode_utf8(s@).len() <= 0xffff,
{
    s.as_str().as_bytes().len() <= 0xffff
}

impl WorldHostS2CMessage {
    /// Checks the wire-format size limits at run time.
    pub fn wf_check(&self) -> (r: bool)
        ensures
            r <==> self.wf(),
    {
        match self {
            WorldHostS2CMessage::Error { message, .. } => str_fits(message),
            WorldHostS2CMessage::OnlineGame { host, owner_cid, .. } => str_fits(host)
                && owner_cid.raw() < crate::ids::MAX_CONNECTION_IDS,
            WorldHostS2CMessage::PublishedWorld { connection_id, .. } => connection_id.raw()
                < crate::ids::MAX_CONNECTION_IDS,
            WorldHostS2CMessage::RequestJoin { connection_id, .. } => connection_id.raw()
                < crate::ids::MAX_CONNECTION_IDS,
            WorldHostS2CMessage::QueryRequest { connection_id, .. } => connection_id.raw()
                < crate::ids::MAX_CONNECTION_IDS,
            WorldHostS2CMessage::QueryResponse { length, data, .. } => data.len() <= 0xffffff00
                && *length as usize == data.len(),
            WorldHostS2CMessage::ConnectionInfo { connection_id, base_ip, user_ip, .. } => {
                connection_id.raw() < crate::ids::MAX_CONNECTION_IDS && str_fits(base_ip)
                    && str_fits(user_ip)
            },
            WorldHostS2CMessage::ExternalProxyServer { host, base_addr, .. } => str_fits(host)
                && str_fits(base_addr),
            WorldHostS2CMessage::OutdatedWorldHost { recommended_version } => str_fits(
                recommended_version,
            ),
            WorldHostS2CMessage::ConnectionNotFound { connection_id } => connection_id.raw()
                < crate::ids::MAX_CONNECTION_IDS,
            WorldHostS2CMessage::Warning { message, .. } => str_fits(message),
            WorldHostS2CMessage::PunchOpenRequest { purpose, from_host, connection_id, .. } => {
                str_fits(purpose) && str_fits(from_host) && connection_id.raw()
                    < crate::ids::MAX_CONNECTION_IDS
            },
            WorldHostS2CMessage::PortLookupSuccess { host, .. } => str_fits(host),
            WorldHostS2CMessage::PunchSuccess { host, .. } => str_fits(host),
            WorldHostS2CMessage::ProxyC2SPacket { data, .. } => data.len() <= 0xffffff00,
            WorldHostS2CMessage::NewQueryResponse { data, .. } => data.len() <= 0xffffff00,
            _ => true,
        }
    }
}

} // verus!
