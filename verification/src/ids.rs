//! Connection and user identifiers, and the security classification of a
//! session.

use vstd::prelude::*;
use crate::text::{dec_chars, u64_to_string};

verus! {

/// Number of distinct connection identifiers: identifiers are 42-bit values.
pub const MAX_CONNECTION_IDS: u64 = 1u64 << 42;

/// A 42-bit session identifier, chosen by the client and validated on
/// handshake.
#[derive(Debug, Clone, Copy, PartialEq, Eq, Hash, Structural)]
pub struct ConnectionId {
    id: u64,
}

impl ConnectionId {
    /// The identifier as a plain integer.
    pub closed spec fn spec_id(self) -> u64 {
        self.id
    }

    /// Every constructed identifier is below `MAX_CONNECTION_IDS`.
    pub open spec fn wf(self) -> bool {
        self.spec_id() < MAX_CONNECTION_IDS
    }

    /// Accepts exactly the values below `MAX_CONNECTION_IDS`.
    pub fn new(id: u64) -> (r: Result<ConnectionId, String>)
        ensures
            id < MAX_CONNECTION_IDS <==> r is Ok,
            r matches Ok(c) ==> c == ConnectionId::spec_new(id) && c.spec_id() == id && c.wf(),
            r matches Err(m) ==> m@ == "Connection ID "@ + dec_chars(id as nat)
                + " out of range"@,
    {
        if id < MAX_CONNECTION_IDS {
            Ok(ConnectionId { id })
        } else {
            let mut m = String::from_str("Connection ID ");
            m.append(u64_to_string(id).as_str());
            m.append(" out of range");
            Err(m)
        }
    }

    /// The raw 64-bit value of the identifier.
    pub fn raw(self) -> (r: u64)
        ensures
            r == self.spec_id(),
    {
        self.id
    }

    /// The identifier holding a given raw value, for use in specifications.
    pub closed spec fn spec_new(id: u64) -> ConnectionId {
        ConnectionId { id }
    }

    /// Wraps a raw value without the range check; the word codec's legacy
    /// nine-digit form can name values at and above `MAX_CONNECTION_IDS`,
    /// and such identifiers simply match no connection.
    pub fn from_raw(id: u64) -> (r: ConnectionId)
        ensures
            r.spec_id() == id,
            r == ConnectionId::spec_new(id),
    {
        ConnectionId { id }
    }

    /// Two identifiers are equal exactly when their raw values are.
    pub proof fn lemma_eq(a: ConnectionId, b: ConnectionId)
        ensures
            (a == b) <==> (a.spec_id() == b.spec_id()),
            ConnectionId::spec_new(a.spec_id()) == a,
            ConnectionId::spec_new(a.spec_id()).spec_id() == a.spec_id(),
    {
    }
}

/// A 128-bit identifier in RFC-4122 layout, used for user identities and
/// for one-shot tokens (punch and port-lookup identifiers). The version
/// field distinguishes online accounts (version 4) from offline accounts.
#[derive(Debug, Clone, Copy, PartialEq, Eq, Hash, Structural)]
pub struct Uuid {
    pub value: u128,
}

impl Uuid {
    /// The identifier as a plain 128-bit integer.
    pub open spec fn spec_value(self) -> u128 {
        self.value
    }

    /// The 4-bit version field: bits 48..52 counted from the most
    /// significant bit.
    pub open spec fn spec_version(self) -> u128 {
        (self.spec_value() >> 76) & 0xf
    }

    pub fn new(value: u128) -> (r: Uuid)
        ensures
            r.spec_value() == value,
    {
        Uuid { value }
    }

    /// The raw 128-bit value of the identifier.
    pub fn raw(self) -> (r: u128)
        ensures
            r == self.spec_value(),
    {
        self.value
    }

    /// The version field of the identifier.
    pub fn version_num(self) -> (r: u8)
        ensures
            r == self.spec_version(),
    {
        proof {
            let v = self.value;
            assert(((v >> 76) & 0xf) < 16) by (bit_vector);
        }
        ((self.value >> 76) & 0xf) as u8
    }

    /// True exactly of the all-zero identifier.
    pub fn is_nil(self) -> (r: bool)
        ensures
            r <==> self.spec_value() == 0,
    {
        self.value == 0
    }

    /// Two identifiers are equal exactly when their raw values are.
    pub proof fn lemma_value_eq(a: Uuid, b: Uuid)
        ensures
            (a == b) <==> (a.spec_value() == b.spec_value()),
    {
    }

    /// True exactly of the all-one identifier.
    pub fn is_max(self) -> (r: bool)
        ensures
            r <==> self.spec_value() == u128::MAX,
    {
        self.value == u128::MAX
    }
}

/// Trust classification of a session, derived from the authentication
/// outcome and the identifier form.
#[derive(Debug, Clone, Copy, PartialEq, Eq, Structural)]
pub enum SecurityLevel {
    Insecure,
    Offline,
    Secure,
}

impl SecurityLevel {
    /// The security level owed to a user: not authenticated means
    /// `Insecure`; authenticated with a version-4 identifier means
    /// `Secure`; authenticated otherwise means `Offline`.
    pub open spec fn spec_from(user: Uuid, secure_auth: bool) -> SecurityLevel {
        if !secure_auth {
            SecurityLevel::Insecure
        } else if user.spec_version() != 4 {
            SecurityLevel::Offline
        } else {
            SecurityLevel::Secure
        }
    }

    pub fn from(user: Uuid, secure_auth: bool) -> (r: SecurityLevel)
        ensures
            r == SecurityLevel::spec_from(user, secure_auth),
    {
        if !secure_auth {
            SecurityLevel::Insecure
        } else if user.version_num() != 4 {
            SecurityLevel::Offline
        } else {
            SecurityLevel::Secure
        }
    }

    /// The single byte that stands for the level on the wire.
    pub open spec fn spec_wire_byte(self) -> u8 {
        match self {
            SecurityLevel::Insecure => 0,
            SecurityLevel::Offline => 1,
            SecurityLevel::Secure => 2,
        }
    }

    pub fn wire_byte(self) -> (r: u8)
        ensures
            r == self.spec_wire_byte(),
    {
        match self {
            SecurityLevel::Insecure => 0,
            SecurityLevel::Offline => 1,
            SecurityLevel::Secure => 2,
        }
    }

    /// True when the level grants more trust than `Insecure`.
    pub fn is_above_insecure(self) -> (r: bool)
        ensures
            r <==> self != SecurityLevel::Insecure,
    {
        match self {
            SecurityLevel::Insecure => false,
            SecurityLevel::Offline => true,
            SecurityLevel::Secure => true,
        }
    }
}

} // verus!
