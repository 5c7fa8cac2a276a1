//! The server's shared state: the registry, the friend-request store, the
//! rate limiter, the port lookups, the dispatcher, and the greeting.

use world_host_server::analytics::{analytics_row, count_country};
use world_host_server::country::{CountryCode, IpInfo};
use world_host_server::handler::{
    handle_message, Action, FullServerConfig, ServerState,
};
use world_host_server::handshake::{
    challenge_result, dequeue_friend_requests, hyphenated, id_collision_action,
    latest_visible_protocol_version, verify_profile, welcome_messages, CollisionAction,
    ProfileLookup,
};
use world_host_server::ids::{ConnectionId, SecurityLevel, Uuid};
use world_host_server::messages::WorldHostC2SMessage;
use world_host_server::range_map::{IpInfoMap, RangeMap};
use world_host_server::ratelimit::{RateLimitBucket, RateLimiter};
use world_host_server::registry::{Connection, ConnectionSet};
use world_host_server::s2c::{IpAddrBytes, WorldHostS2CMessage};
use world_host_server::signalling::PortLookups;
use world_host_server::stores::FriendRequestStore;
use world_host_server::words::Dictionary;

fn cid(v: u64) -> ConnectionId {
    ConnectionId::new(v).unwrap()
}

fn conn(id: u64, user: u128, protocol_version: u32) -> Connection {
    Connection {
        id: cid(id),
        addr: IpAddrBytes::V4([127, 0, 0, 1]),
        user_uuid: Uuid::new(user),
        protocol_version,
        country: None,
        external_proxy: None,
        open_to_friends: Vec::new(),
    }
}

fn online_user(tail: u128) -> u128 {
    0x00000000_0000_4000_8000_000000000000u128 | tail
}

fn test_dictionary() -> Dictionary {
    let mut words = Vec::new();
    'outer: for a in b'a'..=b'z' {
        for b in b'a'..=b'z' {
            for c in b'a'..=b'z' {
                if words.len() == 16384 {
                    break 'outer;
                }
                words.push(String::from_utf8(vec![a, b, c]).unwrap());
            }
        }
    }
    Dictionary::new(words).unwrap()
}

fn test_state() -> ServerState {
    ServerState::new(FullServerConfig {
        port: 9646,
        base_addr: Some("wh.example".to_string()),
        in_java_port: 25565,
        ex_java_port: 25565,
        analytics_time_ms: 0,
        external_servers: None,
    })
}

#[test]
fn registry_dual_index() {
    let mut set = ConnectionSet::new();
    assert!(set.add(conn(1, 10, 7)));
    assert!(set.add(conn(2, 10, 7)));
    assert!(set.add(conn(3, 11, 7)));
    assert!(!set.add(conn(1, 12, 7)));
    assert_eq!(set.len(), 3);
    let bucket = set.by_user_id(Uuid::new(10));
    assert_eq!(bucket.len(), 2);
    assert_eq!(bucket[0].id.raw(), 1);
    assert_eq!(bucket[1].id.raw(), 2);
    for c in &bucket {
        assert_eq!(set.by_id(c.id).unwrap().user_uuid.raw(), 10);
    }
    set.remove(&conn(1, 10, 7));
    assert!(set.by_id(cid(1)).is_none());
    assert_eq!(set.by_user_id(Uuid::new(10)).len(), 1);
}

#[test]
fn registry_add_force_replaces() {
    let mut set = ConnectionSet::new();
    assert!(set.add(conn(1, 10, 6)));
    set.add_force(conn(1, 10, 7));
    assert_eq!(set.len(), 1);
    assert_eq!(set.by_id(cid(1)).unwrap().protocol_version, 7);
    let bucket = set.by_user_id(Uuid::new(10));
    assert_eq!(bucket.len(), 1);
}

#[test]
fn friend_store_bounds_and_mirror() {
    let mut store = FriendRequestStore::new();
    let a = Uuid::new(1);
    // Six requests from the same sender: the oldest is evicted, five stay.
    for t in 0..6u128 {
        store.enqueue(a, Uuid::new(100 + t));
    }
    // The oldest (100) fell out; the rest are delivered in order.
    for t in 1..6u128 {
        let mut s = FriendRequestStore::new();
        s.enqueue(a, Uuid::new(100 + t));
        let senders = s.drain_received(Uuid::new(100 + t));
        assert_eq!(senders, vec![a]);
    }
    assert_eq!(store.drain_received(Uuid::new(100)), Vec::<Uuid>::new());
    assert_eq!(store.drain_received(Uuid::new(101)), vec![a]);
}

#[test]
fn friend_store_receiver_bound() {
    let mut store = FriendRequestStore::new();
    let b = Uuid::new(2);
    // Eleven senders queue for one recipient: the oldest is evicted.
    for t in 0..11u128 {
        store.enqueue(Uuid::new(200 + t), b);
    }
    let senders = store.drain_received(b);
    assert_eq!(senders.len(), 10);
    assert_eq!(senders[0].raw(), 201);
    assert_eq!(senders[9].raw(), 210);
}

#[test]
fn offline_queue_then_deliver() {
    // A queued request while the recipient is away is delivered exactly
    // once when the recipient arrives, and both sides are cleared.
    let mut store = FriendRequestStore::new();
    let a = Uuid::new(online_user(1));
    let b = Uuid::new(online_user(2));
    store.enqueue(a, b);
    let messages = dequeue_friend_requests(&mut store, b);
    assert_eq!(messages.len(), 1);
    match &messages[0] {
        WorldHostS2CMessage::FriendRequest { from_user, security } => {
            assert_eq!(from_user.raw(), a.raw());
            assert_eq!(*security, SecurityLevel::Secure);
        }
        _ => panic!("wrong message"),
    }
    assert!(dequeue_friend_requests(&mut store, b).is_empty());
}

#[test]
fn rate_limiter_window() {
    // Twenty calls in a minute pass; the twenty-first is denied and names
    // its bucket.
    let mut limiter = RateLimiter::new(vec![
        RateLimitBucket::new("per_minute".to_string(), 20, 60_000),
        RateLimitBucket::new("per_hour".to_string(), 400, 3_600_000),
    ]);
    let key = 0xc000_0201u128;
    for i in 0..20 {
        assert!(limiter.ratelimit(key, 1000 + i).is_none());
    }
    let denial = limiter.ratelimit(key, 1500).unwrap();
    assert_eq!(denial.bucket, "per_minute");
    // The twentieth allowed call stamped the entry at 1019, so the window
    // has 60000 - (1500 - 1019) milliseconds left.
    assert_eq!(denial.remaining_ms, 60_000 - (1500 - 1019));
    assert!(denial.message().contains("per_minute"));
    // After the window passes with no calls, the bucket resets.
    assert!(limiter.ratelimit(key, 1500 + 60_000).is_none());
}

#[test]
fn port_lookup_expiry() {
    let mut lookups = PortLookups::new();
    let id = Uuid::new(77);
    lookups.begin(id, cid(5), 1_000);
    // A datagram within ten seconds consumes the lookup.
    let hit = lookups.consume(id, 5_000).unwrap();
    assert_eq!(hit.source_client.raw(), 5);
    assert!(lookups.consume(id, 5_000).is_none());
    // Without a datagram, the sweep reports the expiry.
    lookups.begin(id, cid(5), 1_000);
    let expired = lookups.expire(11_001);
    assert_eq!(expired.len(), 1);
    assert_eq!(expired[0].lookup_id.raw(), 77);
    assert!(lookups.consume(id, 11_001).is_none());
}

fn frames_of(actions: &[Action]) -> Vec<(u64, Vec<u8>)> {
    actions
        .iter()
        .map(|a| match a {
            Action::SendTo { target, frame } => (target.raw(), frame.clone()),
            _ => panic!("expected a delivery"),
        })
        .collect()
}

#[test]
fn dispatch_friend_request_online() {
    let mut server = test_state();
    let dict = test_dictionary();
    assert!(server.connections.add(conn(1, online_user(1), 7)));
    assert!(server.connections.add(conn(2, online_user(2), 7)));
    let message = WorldHostC2SMessage::FriendRequest { to_user: Uuid::new(online_user(2)) };
    let actions = handle_message(
        &mut server,
        cid(1),
        &message,
        &dict,
        &"127.0.0.1".to_string(),
        1_000,
    );
    let frames = frames_of(&actions);
    assert_eq!(frames.len(), 1);
    assert_eq!(frames[0].0, 2);
    // Frame body: type byte three, the sender's identity, security two.
    assert_eq!(frames[0].1[4], 3);
    assert_eq!(frames[0].1[21], 2);
}

#[test]
fn dispatch_friend_request_offline_queues() {
    let mut server = test_state();
    let dict = test_dictionary();
    assert!(server.connections.add(conn(1, online_user(1), 7)));
    let message = WorldHostC2SMessage::FriendRequest { to_user: Uuid::new(online_user(9)) };
    let actions = handle_message(
        &mut server,
        cid(1),
        &message,
        &dict,
        &"127.0.0.1".to_string(),
        1_000,
    );
    assert!(actions.is_empty());
    let senders = server.friend_requests.drain_received(Uuid::new(online_user(9)));
    assert_eq!(senders.len(), 1);
    assert_eq!(senders[0].raw(), online_user(1));
}

#[test]
fn dispatch_query_response_legacy_form() {
    let mut server = test_state();
    let dict = test_dictionary();
    assert!(server.connections.add(conn(1, online_user(1), 7)));
    assert!(server.connections.add(conn(2, online_user(2), 4)));
    let message = WorldHostC2SMessage::NewQueryResponse {
        connection_id: cid(2),
        data: vec![1, 2, 3],
    };
    let actions = handle_message(
        &mut server,
        cid(1),
        &message,
        &dict,
        &"127.0.0.1".to_string(),
        1_000,
    );
    let frames = frames_of(&actions);
    assert_eq!(frames.len(), 1);
    // The protocol-four peer gets the legacy QueryResponse form, type
    // eight, with an explicit length.
    assert_eq!(frames[0].1[4], 8);
}

#[test]
fn dispatch_proxy_packet_ownership() {
    let mut server = test_state();
    let dict = test_dictionary();
    assert!(server.connections.add(conn(1, online_user(1), 7)));
    server.proxy_targets.push((55, 1));
    let owned = handle_message(
        &mut server,
        cid(1),
        &WorldHostC2SMessage::ProxyS2CPacket { connection_id: 55, data: vec![9, 9] },
        &dict,
        &"127.0.0.1".to_string(),
        1_000,
    );
    match &owned[0] {
        Action::ProxyWrite { proxy_id, data } => {
            assert_eq!(*proxy_id, 55);
            assert_eq!(data, &vec![9, 9]);
        }
        _ => panic!("expected a relay write"),
    }
    // A relay entry owned by another connection is ignored.
    server.proxy_targets.push((56, 2));
    let foreign = handle_message(
        &mut server,
        cid(1),
        &WorldHostC2SMessage::ProxyDisconnect { connection_id: 56 },
        &dict,
        &"127.0.0.1".to_string(),
        1_000,
    );
    assert!(foreign.is_empty());
}

#[test]
fn welcome_for_insecure_online_account() {
    // A protocol-five session with a version-four identity: connection
    // information, the outdated notice, and the upgrade nudge.
    let c = conn(3, online_user(3), 5);
    let messages = welcome_messages(&c, &"wh.example".to_string(), 25565, &"127.0.0.1".to_string());
    assert_eq!(messages.len(), 3);
    match &messages[0] {
        WorldHostS2CMessage::ConnectionInfo { connection_id, protocol_version, punch_port, .. } => {
            assert_eq!(connection_id.raw(), 3);
            assert_eq!(*protocol_version, 7);
            assert_eq!(*punch_port, 0);
        }
        _ => panic!("wrong first message"),
    }
    match &messages[1] {
        WorldHostS2CMessage::OutdatedWorldHost { recommended_version } => {
            assert_eq!(recommended_version, "0.5.0")
        }
        _ => panic!("wrong second message"),
    }
    match &messages[2] {
        WorldHostS2CMessage::Error { critical, .. } => assert!(!critical),
        _ => panic!("wrong third message"),
    }
    assert_eq!(latest_visible_protocol_version(5), 7);
}

#[test]
fn profile_verification_policy() {
    let online = Uuid::new(online_user(5));
    let name = b"Steve".to_vec();
    // The service's verdict decides; an unreachable service is forgiven.
    let matched = verify_profile(online, &name, ProfileLookup::Found(online));
    assert!(!matched.is_mismatch());
    let mismatched = verify_profile(online, &name, ProfileLookup::Found(Uuid::new(online_user(6))));
    assert!(mismatched.is_mismatch());
    assert!(mismatched.mismatch_is_error);
    let failed = verify_profile(online, &name, ProfileLookup::NotFound);
    assert!(failed.is_mismatch());
    assert!(failed.mismatch_is_error);
    let allowed = verify_profile(online, &name, ProfileLookup::Unreachable);
    assert!(!allowed.is_mismatch());
    // An offline identity mismatching its derivation is a warning only.
    let offline = verify_profile(Uuid::new(7), &name, ProfileLookup::Unreachable);
    assert!(offline.is_mismatch());
    assert!(!offline.mismatch_is_error);
    // The reserved identities are refused outright.
    let nil = verify_profile(Uuid::new(0), &name, ProfileLookup::Unreachable);
    assert!(nil.mismatch_is_error);
    assert_eq!(nil.mismatch_message, "Reserved special UUID not allowed.");
    let max = verify_profile(Uuid::new(u128::MAX), &name, ProfileLookup::Unreachable);
    assert!(max.mismatch_is_error);
    assert_eq!(
        offline.mismatch_message,
        "Mismatched offline UUID. Some features may not work as intended."
    );
    assert_eq!(mismatched.mismatch_message, "Mismatched UUID.");
}

#[test]
fn challenge_decision() {
    let challenge = vec![1u8, 2, 3, 4];
    assert!(challenge_result(&challenge, &vec![1u8, 2, 3, 4]).is_none());
    let failure = challenge_result(&challenge, &vec![1u8, 2, 3, 5]).unwrap();
    assert_eq!(failure, "Challenge failed");
    assert!(challenge_result(&challenge, &vec![1u8, 2, 3]).is_some());
}

#[test]
fn uuid_rendering() {
    let u = Uuid::new(0x12345678_9abc_4def_8123_456789abcdefu128);
    assert_eq!(hyphenated(u), "12345678-9abc-4def-8123-456789abcdef");
}

#[test]
fn collision_policy() {
    let same = IpAddrBytes::V4([1, 2, 3, 4]);
    let other = IpAddrBytes::V4([5, 6, 7, 8]);
    assert_eq!(id_collision_action(&same, &same, 0), CollisionAction::ReplaceSameAddress);
    assert_eq!(id_collision_action(&other, &same, 100), CollisionAction::RetryLater);
    assert_eq!(id_collision_action(&other, &same, 501), CollisionAction::GiveUp);
}

#[test]
fn range_map_lookup() {
    let mut map = RangeMap::new();
    map.put(10, 19, 1);
    map.put(20, 29, 2);
    // An overlapping or descending range is dropped.
    map.put(25, 40, 3);
    assert_eq!(map.len(), 2);
    assert_eq!(map.get(9), None);
    assert_eq!(map.get(10), Some(1));
    assert_eq!(map.get(19), Some(1));
    assert_eq!(map.get(25), Some(2));
    assert_eq!(map.get(30), None);
}

#[test]
fn ip_info_packing() {
    let info = IpInfo {
        country: CountryCode::new(b'D', b'E').unwrap(),
        lat_fixed: 1234,
        long_fixed: 567,
    };
    let packed = info.to_u32();
    let back = IpInfo::from_u32(packed).unwrap();
    assert_eq!(back, info);
    assert_eq!(back.country.code(), [b'D', b'E']);
}

#[test]
fn ip_info_map_routes_by_width() {
    let mut map = IpInfoMap::new();
    let packed = IpInfo {
        country: CountryCode::new(b'U', b'S').unwrap(),
        lat_fixed: 100,
        long_fixed: 200,
    }
    .to_u32();
    // A range ending at the 32-bit ceiling still belongs to the IPv4 map;
    // one ending above it goes to the IPv6 map.
    map.put(0x0a000000, 0x0affffff, packed);
    map.put(0xf0000000, u32::MAX as u128, packed);
    map.put(0x2_0000_0000, 0x3_0000_0000, packed);
    assert_eq!(map.four_map.len(), 2);
    assert_eq!(map.six_map.len(), 1);
    let hit = map.get(&IpAddrBytes::V4([10, 1, 2, 3])).unwrap();
    assert_eq!(hit.country.code(), [b'U', b'S']);
    assert!(map.get(&IpAddrBytes::V4([255, 255, 255, 255])).is_some());
    assert!(map.get(&IpAddrBytes::V4([11, 0, 0, 1])).is_none());
    assert_eq!(map.len(), 3);
}

#[test]
fn analytics_row_text() {
    let mut server = ConnectionSet::new();
    let mut c = conn(1, 10, 7);
    c.country = Some(CountryCode::new(b'D', b'E').unwrap());
    assert!(server.add(c));
    let de = CountryCode::new(b'D', b'E').unwrap();
    assert_eq!(count_country(&server, de), 1);
    let entries = vec![(de, 1u64), (CountryCode::new(b'U', b'S').unwrap(), 3u64)];
    let row = analytics_row(&"2024-01-01T00:00:00+00:00".to_string(), 4, &entries);
    assert_eq!(row, "2024-01-01T00:00:00+00:00,4,DE:1;US:3\n");
}
