//! The wire protocol: message codecs, framing, the offline identity
//! derivation, and the relay's packet work.

use world_host_server::crypt::java_name_uuid_from_bytes;
use world_host_server::framing::{classify_frame_size, frame_size, FrameAction, MAX_FRAME_SIZE};
use world_host_server::ids::{ConnectionId, SecurityLevel, Uuid};
use world_host_server::messages::{JoinType, WorldHostC2SMessage};
use world_host_server::relay::{disconnect_packets, host_prefix, parse_game_handshake};
use world_host_server::s2c::WorldHostS2CMessage;
use md5::Digest;

fn cid(v: u64) -> ConnectionId {
    ConnectionId::new(v).unwrap()
}

fn c2s_round_trip(message: WorldHostC2SMessage) -> WorldHostC2SMessage {
    let id = message.type_id();
    let payload = message.encode_payload();
    WorldHostC2SMessage::parse_raw(id, &payload).expect("the encoding parses")
}

#[test]
fn c2s_friend_request_round_trip() {
    let m = c2s_round_trip(WorldHostC2SMessage::FriendRequest {
        to_user: Uuid::new(0x1234_5678_9abc_def0_1122_3344_5566_7788),
    });
    match m {
        WorldHostC2SMessage::FriendRequest { to_user } => {
            assert_eq!(to_user.raw(), 0x1234_5678_9abc_def0_1122_3344_5566_7788)
        }
        _ => panic!("wrong variant"),
    }
}

#[test]
fn c2s_list_online_round_trip() {
    let friends = vec![Uuid::new(1), Uuid::new(2), Uuid::new(3)];
    let m = c2s_round_trip(WorldHostC2SMessage::ListOnline { friends: friends.clone() });
    match m {
        WorldHostC2SMessage::ListOnline { friends: f } => assert_eq!(f, friends),
        _ => panic!("wrong variant"),
    }
}

#[test]
fn c2s_join_granted_round_trip() {
    let m = c2s_round_trip(WorldHostC2SMessage::JoinGranted {
        connection_id: cid(42),
        join_type: JoinType::UPnP(25565),
    });
    match m {
        WorldHostC2SMessage::JoinGranted { connection_id, join_type } => {
            assert_eq!(connection_id.raw(), 42);
            assert_eq!(join_type, JoinType::UPnP(25565));
        }
        _ => panic!("wrong variant"),
    }
}

#[test]
fn c2s_punch_open_round_trip() {
    let m = c2s_round_trip(WorldHostC2SMessage::RequestPunchOpen {
        target_connection: cid(7),
        purpose: "join".to_string(),
        punch_id: Uuid::new(99),
        my_host: "203.0.113.9".to_string(),
        my_port: 51820,
        my_local_host: "192.168.1.2".to_string(),
        my_local_port: 25565,
    });
    match m {
        WorldHostC2SMessage::RequestPunchOpen { target_connection, purpose, my_port, .. } => {
            assert_eq!(target_connection.raw(), 7);
            assert_eq!(purpose, "join");
            assert_eq!(my_port, 51820);
        }
        _ => panic!("wrong variant"),
    }
}

#[test]
fn c2s_parse_rejects_unknown_type() {
    assert!(WorldHostC2SMessage::parse(200, &[], Some(7)).is_err());
}

#[test]
fn c2s_parse_rejects_too_new() {
    // BeginPortLookup arrived in protocol seven; a protocol-five client
    // may not send it.
    let payload = [0u8; 16];
    assert!(WorldHostC2SMessage::parse(14, &payload, Some(5)).is_err());
    assert!(WorldHostC2SMessage::parse(14, &payload, Some(7)).is_ok());
}

#[test]
fn c2s_parse_rejects_out_of_range_connection_id() {
    // RequestDirectJoin carries a connection identifier that must be
    // below two to the forty-second.
    let mut payload = Vec::new();
    payload.extend_from_slice(&(1u64 << 42).to_be_bytes());
    assert!(WorldHostC2SMessage::parse_raw(10, &payload).is_err());
    let mut ok = Vec::new();
    ok.extend_from_slice(&42u64.to_be_bytes());
    assert!(WorldHostC2SMessage::parse_raw(10, &ok).is_ok());
}

#[test]
fn s2c_error_wire_format() {
    let m = WorldHostS2CMessage::Error { message: "hi".to_string(), critical: true };
    assert_eq!(m.type_id(), 0);
    let payload = m.encode_payload();
    assert_eq!(payload, vec![0, 2, b'h', b'i', 1]);
}

#[test]
fn s2c_security_level_bytes() {
    let m = WorldHostS2CMessage::FriendRequest {
        from_user: Uuid::new(5),
        security: SecurityLevel::Secure,
    };
    let payload = m.encode_payload();
    assert_eq!(payload.len(), 17);
    assert_eq!(payload[16], 2);
}

#[test]
fn frame_layout() {
    let m = WorldHostS2CMessage::ProxyDisconnect { connection_id: 9 };
    let frame = m.encode();
    // Length prefix counts the type byte and the payload.
    assert_eq!(&frame[0..4], &[0, 0, 0, 9]);
    assert_eq!(frame[4], 11);
    assert_eq!(frame.len(), 13);
    assert_eq!(frame_size(&frame[0..4]), 9);
}

#[test]
fn send_gating_by_protocol() {
    // A Warning arrived in protocol six: a protocol-five peer gets no
    // bytes at all, a protocol-six peer gets the frame.
    let m = WorldHostS2CMessage::Warning { message: "w".to_string(), important: false };
    assert!(m.encode_for_protocol(5).is_none());
    assert!(m.encode_for_protocol(6).is_some());
}

#[test]
fn frame_size_classification() {
    assert_eq!(classify_frame_size(0), FrameAction::Empty);
    assert_eq!(classify_frame_size(1), FrameAction::Read(1));
    assert_eq!(classify_frame_size(MAX_FRAME_SIZE), FrameAction::Read(MAX_FRAME_SIZE));
    // An oversize frame drains exactly the advertised bytes.
    assert_eq!(
        classify_frame_size(MAX_FRAME_SIZE + 1),
        FrameAction::Drain(MAX_FRAME_SIZE + 1)
    );
}

#[test]
fn offline_uuid_derivation() {
    // The historical name-based derivation: MD5 of the ASCII name with the
    // version field set to three and the variant bits to the RFC 4122
    // form.
    let name = b"OfflinePlayer:Notch";
    let mut bytes: [u8; 16] = md5::Md5::digest(name).into();
    bytes[6] = (bytes[6] & 0x0f) | 0x30;
    bytes[8] = (bytes[8] & 0x3f) | 0x80;
    let expected = u128::from_be_bytes(bytes);
    let derived = java_name_uuid_from_bytes(name);
    assert_eq!(derived.raw(), expected);
    assert_eq!(derived.version_num(), 3);
    // Held against the uuid crate's own name-based builder for the same
    // historical algorithm.
    let reference = uuid::Uuid::from_bytes(bytes);
    assert_eq!(reference.get_version_num(), 3);
    assert_eq!(derived.raw(), reference.as_u128());
}

#[test]
fn game_handshake_parse() {
    let mut body = Vec::new();
    body.push(0x00); // packet id
    body.push(47); // protocol version
    let addr = b"aaa-aaa-aab.wh.example";
    body.push(addr.len() as u8); // short string length fits one varint byte
    body.extend_from_slice(addr);
    body.extend_from_slice(&25565u16.to_be_bytes());
    body.push(2); // next state: login
    let h = parse_game_handshake(&body).unwrap();
    assert_eq!(h.address, "aaa-aaa-aab.wh.example");
    assert_eq!(h.port, 25565);
    assert_eq!(h.next_state, 2);
    assert_eq!(host_prefix(&h.address).unwrap(), "aaa-aaa-aab");
    // Without a dot the whole address is the prefix.
    assert_eq!(host_prefix("aaa-aaa-aab").unwrap(), "aaa-aaa-aab");
}

#[test]
fn login_disconnect_packet_carries_message() {
    let message = "Couldn't find server with ID silly-silly-silly".to_string();
    let packets = disconnect_packets(2, &message);
    assert_eq!(packets.len(), 1);
    let text = String::from_utf8_lossy(&packets[0]).into_owned();
    assert!(text.contains("Couldn't find server with ID silly-silly-silly"));
    assert!(text.contains("\"color\":\"red\""));
}

#[test]
fn status_disconnect_sends_pong() {
    let message = "nope".to_string();
    let packets = disconnect_packets(1, &message);
    assert_eq!(packets.len(), 2);
    // The pong packet: length nine, packet id one, eight zero bytes.
    assert_eq!(packets[1], vec![9, 1, 0, 0, 0, 0, 0, 0, 0, 0]);
}

#[test]
fn security_level_from_identity() {
    let online = Uuid::new(0x00000000_0000_4000_8000_000000000000u128);
    let offline = Uuid::new(0x00000000_0000_3000_8000_000000000000u128);
    assert_eq!(SecurityLevel::from(online, true), SecurityLevel::Secure);
    assert_eq!(SecurityLevel::from(offline, true), SecurityLevel::Offline);
    assert_eq!(SecurityLevel::from(online, false), SecurityLevel::Insecure);
}
