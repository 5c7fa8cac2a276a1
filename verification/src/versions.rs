//! Protocol versions: the supported range, feature thresholds, and the
//! human-readable release names.

use vstd::prelude::*;

verus! {

/// The newest protocol version this server speaks.
pub const CURRENT: u32 = 7;

/// The newest protocol version considered stable.
pub const STABLE: u32 = 7;

/// The first protocol version with challenge/response authentication.
pub const NEW_AUTH_PROTOCOL: u32 = 6;

/// The first protocol version with encrypted framing.
pub const ENCRYPTED_PROTOCOL: u32 = 7;

/// True of the protocol versions the server accepts: 2 up to `CURRENT`.
pub open spec fn spec_supported(protocol_version: u32) -> bool {
    2 <= protocol_version <= CURRENT
}

pub fn is_supported(protocol_version: u32) -> (r: bool)
    ensures
        r == spec_supported(protocol_version),
{
    2 <= protocol_version && protocol_version <= CURRENT
}

/// The release name of a supported protocol version.
pub open spec fn spec_version_name(protocol: u32) -> Seq<char> {
    if protocol == 2 {
        "0.3.2"@
    } else if protocol == 3 {
        "0.3.4"@
    } else if protocol == 4 {
        "0.4.3"@
    } else if protocol == 5 {
        "0.4.4"@
    } else if protocol == 6 {
        "0.4.14"@
    } else {
        "0.5.0"@
    }
}

pub fn get_version_name(protocol: u32) -> (r: &'static str)
    requires
        spec_supported(protocol),
    ensures
        r@ == spec_version_name(protocol),
{
    match protocol {
        2 => "0.3.2",
        3 => "0.3.4",
        4 => "0.4.3",
        5 => "0.4.4",
        6 => "0.4.14",
        _ => "0.5.0",
    }
}

} // verus!
