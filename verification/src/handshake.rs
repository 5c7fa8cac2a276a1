//! The handshake decisions: profile verification, the outcome a handshake
//! reports, the messages that greet a connection once live, and the policy
//! for a connection-identifier collision.

use vstd::prelude::*;
use vstd::utf8::encode_utf8;
use crate::crypt::java_name_uuid_from_bytes;
use crate::handler::FullServerConfig;
use crate::ids::{ConnectionId, SecurityLevel, Uuid};
use crate::registry::Connection;
use crate::stores::FriendRequestStore;
use crate::s2c::{S2CSpec, WorldHostS2CMessage};
use crate::text::hex_fixed;
use crate::versions::{
    get_version_name, spec_version_name, CURRENT, NEW_AUTH_PROTOCOL, STABLE,
};
use crate::wire::put_bytes;

verus! {

/// The canonical hyphenated rendering of a 128-bit identifier.
pub open spec fn spec_hyphenated(u: Uuid) -> Seq<char> {
    let h = hex_fixed(u.value as nat, 32);
    h.subrange(0, 8) + seq!['-'] + h.subrange(8, 12) + seq!['-'] + h.subrange(12, 16) + seq!['-']
        + h.subrange(16, 20) + seq!['-'] + h.subrange(20, 32)
}

/// Renders an identifier in its hyphenated form.
pub fn hyphenated(u: Uuid) -> (r: String)
    ensures
        r@ == spec_hyphenated(u),
{
    let h = crate::text::u128_to_hex_fixed(u.raw(), 32);
    let ghost hv = h@;
    proof {
        lemma_hex_fixed_len(u.value as nat, 32);
    }
    let s = h.as_str();
    let mut out = String::new();
    out.append(s.substring_char(0, 8));
    out.append("-");
    out.append(s.substring_char(8, 12));
    out.append("-");
    out.append(s.substring_char(12, 16));
    out.append("-");
    out.append(s.substring_char(16, 20));
    out.append("-");
    out.append(s.substring_char(20, 32));
    proof {
        reveal_strlit("-");
        assert("-"@ =~= seq!['-']);
        lemma_hex_fixed_len(u.value as nat, 32);
        assert(out@ =~= spec_hyphenated(u));
    }
    out
}

proof fn lemma_hex_fixed_len(x: nat, width: nat)
    ensures
        hex_fixed(x, width).len() == width,
    decreases width,
{
    if width > 0 {
        lemma_hex_fixed_len(x / 16, (width - 1) as nat);
    }
}

/// What the profile service said about a name.
#[derive(Debug, Clone, Copy, PartialEq, Eq, Structural)]
pub enum ProfileLookup {
    /// The service knows the name and returned its canonical identifier.
    Found(Uuid),
    /// The service answered that the name has not joined.
    NotFound,
    /// The service could not be reached; the policy is to allow.
    Unreachable,
}

/// The verdict on a requested identity.
pub struct VerifyProfileResult {
    pub requested_uuid: Uuid,
    pub expected_uuid: Uuid,
    pub mismatch_message: &'static str,
    pub mismatch_is_error: bool,
    pub include_uuid_info: bool,
}

impl VerifyProfileResult {
    /// The requested and canonical identities disagree.
    pub open spec fn spec_is_mismatch(&self) -> bool {
        self.requested_uuid != self.expected_uuid
    }

    pub fn is_mismatch(&self) -> (r: bool)
        ensures
            r == self.spec_is_mismatch(),
    {
        proof {
            Uuid::lemma_value_eq(self.requested_uuid, self.expected_uuid);
        }
        self.requested_uuid.raw() != self.expected_uuid.raw()
    }

    /// The mismatch text, with both identities when they may be shown.
    pub open spec fn spec_message_with_uuid_info(&self) -> Seq<char> {
        if self.include_uuid_info {
            self.mismatch_message@ + " Client gave UUID "@ + spec_hyphenated(self.requested_uuid)
                + ". Expected UUID "@ + spec_hyphenated(self.expected_uuid) + "."@
        } else {
            self.mismatch_message@
        }
    }

    pub fn message_with_uuid_info(&self) -> (r: String)
        ensures
            r@ == self.spec_message_with_uuid_info(),
    {
        if self.include_uuid_info {
            let mut m = String::from_str(self.mismatch_message);
            m.append(" Client gave UUID ");
            m.append(hyphenated(self.requested_uuid).as_str());
            m.append(". Expected UUID ");
            m.append(hyphenated(self.expected_uuid).as_str());
            m.append(".");
            m
        } else {
            String::from_str(self.mismatch_message)
        }
    }
}

/// The name whose derivation gives an offline account's identity.
pub open spec fn offline_name(username: Seq<u8>) -> Seq<u8> {
    encode_utf8("OfflinePlayer:"@) + username
}

/// Verifies a requested identity. An online identity (version four) is
/// held against the profile service's answer; an unreachable service is
/// forgiven. Any other identity is held against the offline derivation of
/// the name, fatally only for the reserved all-zero and all-one values.
pub fn verify_profile(
    requested_uuid: Uuid,
    username: &Vec<u8>,
    lookup: ProfileLookup,
) -> (r: VerifyProfileResult)
    ensures
        r.requested_uuid == requested_uuid,
        requested_uuid.spec_version() == 4 ==> match lookup {
            ProfileLookup::Found(u) => r.expected_uuid == u && r.mismatch_is_error
                && r.include_uuid_info && r.mismatch_message@ == "Mismatched UUID."@,
            ProfileLookup::NotFound => r.expected_uuid == (Uuid { value: 0 })
                && r.mismatch_is_error && !r.include_uuid_info && r.mismatch_message@
                == "Failed to verify username. Please restart your game and the launcher. If you're unable to join regular Minecraft servers, this is not a bug with World Host."@,
            ProfileLookup::Unreachable => r.expected_uuid == requested_uuid
                && r.mismatch_message@ == "Mismatched UUID."@,
        },
        requested_uuid.spec_version() != 4 ==> {
            &&& r.expected_uuid == crate::crypt::spec_name_uuid(offline_name(username@))
            &&& if requested_uuid.spec_value() == 0 || requested_uuid.spec_value() == u128::MAX {
                r.mismatch_is_error && r.include_uuid_info && r.mismatch_message@
                    == "Reserved special UUID not allowed."@
            } else {
                !r.mismatch_is_error && r.include_uuid_info && r.mismatch_message@
                    == "Mismatched offline UUID. Some features may not work as intended."@
            }
        },
{
    if requested_uuid.version_num() == 4 {
        match lookup {
            ProfileLookup::Unreachable => VerifyProfileResult {
                requested_uuid,
                expected_uuid: requested_uuid,
                mismatch_message: "Mismatched UUID.",
                mismatch_is_error: true,
                include_uuid_info: true,
            },
            ProfileLookup::Found(u) => VerifyProfileResult {
                requested_uuid,
                expected_uuid: u,
                mismatch_message: "Mismatched UUID.",
                mismatch_is_error: true,
                include_uuid_info: true,
            },
            ProfileLookup::NotFound => VerifyProfileResult {
                requested_uuid,
                expected_uuid: Uuid::new(0),
                mismatch_message: "Failed to verify username. Please restart your game and the launcher. If you're unable to join regular Minecraft servers, this is not a bug with World Host.",
                mismatch_is_error: true,
                include_uuid_info: false,
            },
        }
    } else {
        let mut name: Vec<u8> = Vec::new();
        put_bytes(&mut name, "OfflinePlayer:".as_bytes());
        put_bytes(&mut name, username.as_slice());
        proof {
            assert(name@ =~= offline_name(username@));
        }
        let offline_uuid = java_name_uuid_from_bytes(name.as_slice());
        if requested_uuid.is_nil() || requested_uuid.is_max() {
            VerifyProfileResult {
                requested_uuid,
                expected_uuid: offline_uuid,
                mismatch_message: "Reserved special UUID not allowed.",
                mismatch_is_error: true,
                include_uuid_info: true,
            }
        } else {
            VerifyProfileResult {
                requested_uuid,
                expected_uuid: offline_uuid,
                mismatch_message: "Mismatched offline UUID. Some features may not work as intended.",
                mismatch_is_error: false,
                include_uuid_info: true,
            }
        }
    }
}

/// The handshake's challenge check: the decrypted reply must equal the
/// challenge byte for byte, and a mismatch fails the handshake with the
/// critical text the protocol fixes.
pub fn challenge_result(challenge: &Vec<u8>, decrypted: &Vec<u8>) -> (r: Option<String>)
    ensures
        r is None <==> challenge@ == decrypted@,
        r matches Some(m) ==> m@ == "Challenge failed"@,
{
    if bytes_eq(challenge, decrypted) {
        None
    } else {
        Some(String::from_str("Challenge failed"))
    }
}

fn bytes_eq(a: &Vec<u8>, b: &Vec<u8>) -> (r: bool)
    ensures
        r <==> a@ == b@,
{
    if a.len() != b.len() {
        return false;
    }
    let mut k: usize = 0;
    while k < a.len()
        invariant
            a@.len() == b@.len(),
            k <= a@.len(),
            forall|i: int| 0 <= i < k ==> a@[i] == b@[i],
        decreases a@.len() - k,
    {
        if a[k] != b[k] {
            return false;
        }
        k += 1;
    }
    proof {
        assert(a@ =~= b@);
    }
    true
}

/// Whether a handshake verdict lets the connection go live, and the text
/// it carries: a benign mismatch produces a warning and goes live, a fatal
/// one closes the connection.
pub fn handshake_outcome(verify: &VerifyProfileResult) -> (r: (bool, Option<String>))
    ensures
        r.0 == (!verify.spec_is_mismatch() || !verify.mismatch_is_error),
        verify.spec_is_mismatch() ==> (r.1 matches Some(m) && m@
            == verify.spec_message_with_uuid_info()),
        !verify.spec_is_mismatch() ==> r.1 is None,
{
    if verify.is_mismatch() {
        (!verify.mismatch_is_error, Some(verify.message_with_uuid_info()))
    } else {
        (true, None)
    }
}

/// The newest protocol version shown to a client: the stable one, unless
/// the client is already beyond it.
pub fn latest_visible_protocol_version(protocol_version: u32) -> (r: u32)
    ensures
        r == if protocol_version <= STABLE {
            STABLE
        } else {
            CURRENT
        },
{
    if protocol_version <= STABLE {
        STABLE
    } else {
        CURRENT
    }
}

/// The messages that greet a connection once live: its connection
/// information; a version nudge for an outdated client; an upgrade nudge
/// for an online account still on an unauthenticated version.
pub open spec fn spec_welcome(c: crate::registry::ConnModel, base_ip: Seq<char>, base_port: u16, user_ip: Seq<char>) -> Seq<S2CSpec> {
    let latest = if c.protocol_version <= STABLE {
        STABLE
    } else {
        CURRENT
    };
    let info = S2CSpec::ConnectionInfo {
        connection_id: ConnectionId::spec_new(c.id),
        base_ip,
        base_port,
        user_ip,
        protocol_version: latest,
        punch_port: 0,
    };
    let s1 = seq![info];
    let s2 = if c.protocol_version < latest {
        s1.push(S2CSpec::OutdatedWorldHost { recommended_version: spec_version_name(latest) })
    } else {
        s1
    };
    if SecurityLevel::spec_from(
        Uuid { value: c.user },
        c.protocol_version >= NEW_AUTH_PROTOCOL,
    ) == SecurityLevel::Insecure && (Uuid { value: c.user }).spec_version() == 4 {
        s2.push(
            S2CSpec::Error {
                message: insecure_nudge_text(),
                critical: false,
            },
        )
    } else {
        s2
    }
}

/// The upgrade nudge for online accounts on unauthenticated versions.
pub open spec fn insecure_nudge_text() -> Seq<char> {
    "You are using an old insecure version of World Host. It is highly recommended that you update to "@
        + spec_version_name(NEW_AUTH_PROTOCOL) + " or later."@
}

/// Builds the greeting messages for a connection that just went live.
pub fn welcome_messages(connection: &Connection, base_ip: &String, base_port: u16, user_ip: &String) -> (r: Vec<
    WorldHostS2CMessage,
>)
    ensures
        Seq::new(r@.len(), |i: int| r@[i]@) == spec_welcome(
            connection@,
            base_ip@,
            base_port,
            user_ip@,
        ),
{
    let latest = latest_visible_protocol_version(connection.protocol_version);
    let mut out: Vec<WorldHostS2CMessage> = Vec::new();
    proof {
        ConnectionId::lemma_eq(connection.id, connection.id);
    }
    out.push(
        WorldHostS2CMessage::ConnectionInfo {
            connection_id: connection.id,
            base_ip: clone_string(base_ip),
            base_port,
            user_ip: clone_string(user_ip),
            protocol_version: latest,
            punch_port: 0,
        },
    );
    if connection.protocol_version < latest {
        out.push(
            WorldHostS2CMessage::OutdatedWorldHost {
                recommended_version: String::from_str(get_version_name(latest)),
            },
        );
    }
    let insecure = match connection.security_level() {
        SecurityLevel::Insecure => true,
        _ => false,
    };
    if insecure && connection.user_uuid.version_num() == 4 {
        let mut text = String::from_str(
            "You are using an old insecure version of World Host. It is highly recommended that you update to ",
        );
        text.append(get_version_name(NEW_AUTH_PROTOCOL));
        text.append(" or later.");
        out.push(WorldHostS2CMessage::Error { message: text, critical: false });
    }
    proof {
        assert(Seq::new(out@.len(), |i: int| out@[i]@) =~= spec_welcome(
            connection@,
            base_ip@,
            base_port,
            user_ip@,
        ));
    }
    out
}

fn clone_string(s: &String) -> (r: String)
    ensures
        r@ == s@,
{
    s.clone()
}

/// What to do when a new connection's identifier is already live: an
/// incumbent from the same address is closed and replaced at once; another
/// incumbent is given half a second before the newcomer is refused.
#[derive(Debug, Clone, Copy, PartialEq, Eq, Structural)]
pub enum CollisionAction {
    /// Close the incumbent with a critical error and take its place.
    ReplaceSameAddress,
    /// Yield and try again shortly.
    RetryLater,
    /// Refuse the new connection: the identifier is taken.
    GiveUp,
}

/// The retry window for an identifier collision, in milliseconds.
pub const COLLISION_RETRY_WINDOW_MS: u64 = 500;

pub fn id_collision_action(
    incumbent_addr: &crate::s2c::IpAddrBytes,
    newcomer_addr: &crate::s2c::IpAddrBytes,
    elapsed_ms: u64,
) -> (r: CollisionAction)
    ensures
        incumbent_addr@ == newcomer_addr@ ==> r == CollisionAction::ReplaceSameAddress,
        incumbent_addr@ != newcomer_addr@ && elapsed_ms > COLLISION_RETRY_WINDOW_MS ==> r
            == CollisionAction::GiveUp,
        incumbent_addr@ != newcomer_addr@ && elapsed_ms <= COLLISION_RETRY_WINDOW_MS ==> r
            == CollisionAction::RetryLater,
{
    if ip_eq(incumbent_addr, newcomer_addr) {
        CollisionAction::ReplaceSameAddress
    } else if elapsed_ms > COLLISION_RETRY_WINDOW_MS {
        CollisionAction::GiveUp
    } else {
        CollisionAction::RetryLater
    }
}

fn ip_eq(a: &crate::s2c::IpAddrBytes, b: &crate::s2c::IpAddrBytes) -> (r: bool)
    ensures
        r <==> a@ == b@,
{
    match a {
        crate::s2c::IpAddrBytes::V4(x) => match b {
            crate::s2c::IpAddrBytes::V4(y) => bytes4_eq(x, y),
            crate::s2c::IpAddrBytes::V6(y) => {
                proof {
                    assert(a@.len() == 4 && b@.len() == 16);
                }
                false
            },
        },
        crate::s2c::IpAddrBytes::V6(x) => match b {
            crate::s2c::IpAddrBytes::V6(y) => bytes16_eq(x, y),
            crate::s2c::IpAddrBytes::V4(y) => {
                proof {
                    assert(a@.len() == 16 && b@.len() == 4);
                }
                false
            },
        },
    }
}

fn bytes4_eq(x: &[u8; 4], y: &[u8; 4]) -> (r: bool)
    ensures
        r <==> x@ == y@,
{
    let mut k: usize = 0;
    while k < 4
        invariant
            k <= 4,
            forall|i: int| 0 <= i < k ==> x@[i] == y@[i],
        decreases 4 - k,
    {
        if x[k] != y[k] {
            return false;
        }
        k += 1;
    }
    proof {
        assert(x@ =~= y@);
    }
    true
}

fn bytes16_eq(x: &[u8; 16], y: &[u8; 16]) -> (r: bool)
    ensures
        r <==> x@ == y@,
{
    let mut k: usize = 0;
    while k < 16
        invariant
            k <= 16,
            forall|i: int| 0 <= i < k ==> x@[i] == y@[i],
        decreases 16 - k,
    {
        if x[k] != y[k] {
            return false;
        }
        k += 1;
    }
    proof {
        assert(x@ =~= y@);
    }
    true
}


/// The messages delivered when a user comes online: one friend request per
/// sender that queued while the user was away, oldest first; the paired
/// store entries are cleared.
pub fn dequeue_friend_requests(store: &mut FriendRequestStore, user: Uuid) -> (r: Vec<
    WorldHostS2CMessage,
>)
    requires
        old(store).wf(),
    ensures
        final(store).wf(),
        final(store)@ == crate::stores::remove_recipient(old(store)@, user),
        ({
            let senders = crate::stores::received_by(old(store)@, user);
            &&& r@.len() == senders.len()
            &&& forall|k: int|
                0 <= k < senders.len() ==> #[trigger] r@[k]@ == (S2CSpec::FriendRequest {
                    from_user: senders[k],
                    security: SecurityLevel::spec_from(senders[k], true),
                })
        }),
{
    let ghost s = store@;
    let senders = store.drain_received(user);
    let mut out: Vec<WorldHostS2CMessage> = Vec::new();
    let mut k: usize = 0;
    while k < senders.len()
        invariant
            senders@ == crate::stores::received_by(s, user),
            k <= senders@.len(),
            out@.len() == k,
            forall|j: int|
                0 <= j < k ==> #[trigger] out@[j]@ == (S2CSpec::FriendRequest {
                    from_user: senders@[j],
                    security: SecurityLevel::spec_from(senders@[j], true),
                }),
        decreases senders@.len() - k,
    {
        let from_user = senders[k];
        out.push(
            WorldHostS2CMessage::FriendRequest {
                from_user,
                security: SecurityLevel::from(from_user, true),
            },
        );
        k += 1;
    }
    out
}

} // verus!
