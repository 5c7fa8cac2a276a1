//! The TCP relay's protocol work: the game's variable-length integers, the
//! initial handshake packet, the target-identifier prefix of the requested
//! address, and the disconnect packets sent when no session matches.

use vstd::prelude::*;
use vstd::utf8::{decode_utf8, encode_utf8, valid_utf8};
use crate::wire::{sp_take, sp_u16, sp_u8, string_from_utf8, Reader, put_bytes, put_u16, put_u8};

verus! {

/// Reads one variable-length integer: seven bits per byte, least
/// significant first, at most five bytes.
pub open spec fn sp_varint_at(s: Seq<u8>, i: int, pos: nat, acc: u32) -> Option<(u32, int)>
    decreases 38 - pos,
{
    if pos >= 32 {
        None
    } else {
        match sp_u8(s, i) {
            Some((b, j)) => {
                let acc2 = (acc | (((b & 0x7f) as u32) << pos)) as u32;
                if b & 0x80 == 0 {
                    Some((acc2, j))
                } else {
                    sp_varint_at(s, j, (pos + 7) as nat, acc2)
                }
            },
            None => None,
        }
    }
}

pub open spec fn sp_varint(s: Seq<u8>, i: int) -> Option<(u32, int)> {
    sp_varint_at(s, i, 0, 0)
}

/// The wire form of a variable-length integer.
pub open spec fn enc_varint(v: u32) -> Seq<u8>
    decreases v,
{
    if v < 0x80 {
        seq![v as u8]
    } else {
        seq![((v & 0x7f) | 0x80) as u8] + enc_varint(v / 0x80)
    }
}

/// Appends the wire form of a variable-length integer.
pub fn put_varint(out: &mut Vec<u8>, v: u32)
    ensures
        final(out)@ == old(out)@ + enc_varint(v),
    decreases v,
{
    if v < 0x80 {
        out.push(v as u8);
        proof {
            assert(out@ =~= old(out)@ + enc_varint(v));
        }
    } else {
        out.push((((v & 0x7f) | 0x80) as u8));
        let next = v / 0x80;
        put_varint(out, next);
        proof {
            assert(out@ =~= old(out)@ + enc_varint(v));
        }
    }
}

/// Reads a variable-length integer from the cursor.
pub fn get_varint(rd: &mut Reader<'_>) -> (r: Result<u32, String>)
    requires
        old(rd).wf(),
    ensures
        final(rd).wf(),
        final(rd).spec_data() == old(rd).spec_data(),
        match sp_varint(old(rd).spec_data(), old(rd).spec_pos()) {
            Some(p) => r matches Ok(v) && v == p.0 && final(rd).spec_pos() == p.1,
            None => r is Err,
        },
{
    get_varint_at(rd, 0, 0)
}

fn get_varint_at(rd: &mut Reader<'_>, pos: u32, acc: u32) -> (r: Result<u32, String>)
    requires
        old(rd).wf(),
        pos % 7 == 0,
    ensures
        final(rd).wf(),
        final(rd).spec_data() == old(rd).spec_data(),
        match sp_varint_at(old(rd).spec_data(), old(rd).spec_pos(), pos as nat, acc) {
            Some(p) => r matches Ok(v) && v == p.0 && final(rd).spec_pos() == p.1,
            None => r is Err,
        },
    decreases 38 - pos,
{
    if pos >= 32 {
        return Err(String::from_str("VarInt is too big"));
    }
    let b = match rd.get_u8() {
        Ok(b) => b,
        Err(e) => {
            return Err(e);
        },
    };
    let acc2 = acc | (((b & 0x7f) as u32) << pos);
    proof {
        assert(pos < 32 ==> ((b & 0x7f) as u32) << pos == (((b & 0x7f) as u32) << pos))
            by (bit_vector);
    }
    if b & 0x80 == 0 {
        Ok(acc2)
    } else {
        get_varint_at(rd, pos + 7, acc2)
    }
}

/// Reads a length-prefixed string of the game protocol: a variable-length
/// byte count, bounded, then UTF-8 bytes.
pub open spec fn sp_mc_string(s: Seq<u8>, i: int, max_length: int) -> Option<(Seq<char>, int)> {
    match sp_varint(s, i) {
        Some((n, j)) => if n <= max_length {
            match sp_take(s, j, n as int) {
                Some((b, k)) => if valid_utf8(b) {
                    Some((decode_utf8(b), k))
                } else {
                    None
                },
                None => None,
            }
        } else {
            None
        },
        None => None,
    }
}

pub fn get_mc_string(rd: &mut Reader<'_>, max_length: u32) -> (r: Result<String, String>)
    requires
        old(rd).wf(),
    ensures
        final(rd).wf(),
        final(rd).spec_data() == old(rd).spec_data(),
        match sp_mc_string(old(rd).spec_data(), old(rd).spec_pos(), max_length as int) {
            Some(p) => r matches Ok(v) && v@ == p.0 && final(rd).spec_pos() == p.1,
            None => r is Err,
        },
{
    let n = match get_varint(rd) {
        Ok(n) => n,
        Err(e) => {
            return Err(e);
        },
    };
    if n > max_length {
        return Err(String::from_str("String exceeds the allowed length"));
    }
    let bytes = match rd.take(n as usize) {
        Ok(b) => b,
        Err(e) => {
            return Err(e);
        },
    };
    match string_from_utf8(bytes) {
        Some(s) => Ok(s),
        None => Err(String::from_str("Invalid UTF-8 in string")),
    }
}

/// The fields of the game's initial handshake packet body.
pub struct GameHandshake {
    pub address: String,
    pub port: u16,
    pub next_state: u8,
}

/// What a handshake packet body parses to: a packet identifier, a protocol
/// version, the requested address, a port, and the next state.
pub open spec fn spec_parse_game_handshake(s: Seq<u8>) -> Option<(Seq<char>, u16, u8)> {
    match sp_varint(s, 0) {
        Some((_id, i1)) => match sp_varint(s, i1) {
            Some((_proto, i2)) => match sp_mc_string(s, i2, 255) {
                Some((address, i3)) => match sp_u16(s, i3) {
                    Some((port, i4)) => match sp_varint(s, i4) {
                        Some((next_state, _)) => Some((address, port, next_state as u8)),
                        None => None,
                    },
                    None => None,
                },
                None => None,
            },
            None => None,
        },
        None => None,
    }
}

/// Parses the body of the game's initial handshake packet.
pub fn parse_game_handshake(data: &[u8]) -> (r: Result<GameHandshake, String>)
    ensures
        r is Ok <==> spec_parse_game_handshake(data@) is Some,
        r matches Ok(h) ==> ({
            let p = spec_parse_game_handshake(data@)->Some_0;
            h.address@ == p.0 && h.port == p.1 && h.next_state == p.2
        }),
{
    let mut rd = Reader::new(data);
    let _packet_id = match get_varint(&mut rd) {
        Ok(v) => v,
        Err(e) => {
            return Err(e);
        },
    };
    let _protocol = match get_varint(&mut rd) {
        Ok(v) => v,
        Err(e) => {
            return Err(e);
        },
    };
    let address = match get_mc_string(&mut rd, 255) {
        Ok(v) => v,
        Err(e) => {
            return Err(e);
        },
    };
    let port = match rd.get_u16() {
        Ok(v) => v,
        Err(e) => {
            return Err(e);
        },
    };
    let next_state = match get_varint(&mut rd) {
        Ok(v) => v,
        Err(e) => {
            return Err(e);
        },
    };
    Ok(GameHandshake { address, port, next_state: next_state as u8 })
}

/// The byte position of the first `.`, or the length when there is none.
pub open spec fn first_dot(s: Seq<u8>) -> int
    decreases s.len(),
{
    if s.len() == 0 {
        0
    } else if s[0] == 46 {
        0
    } else {
        1 + first_dot(s.drop_first())
    }
}

/// The requested address up to its first `.`: the part that names the
/// target connection. A prefix cut before an ASCII dot is itself valid
/// UTF-8, so the prefix always exists.
pub fn host_prefix(address: &str) -> (r: Option<String>)
    ensures
        r is Some,
        r matches Some(p) ==> encode_utf8(p@) == encode_utf8(address@).subrange(
            0,
            first_dot(encode_utf8(address@)),
        ),
        r matches Some(p) ==> p@ == decode_utf8(
            encode_utf8(address@).subrange(0, first_dot(encode_utf8(address@))),
        ),
{
    let bytes = address.as_bytes();
    let ghost bv = bytes@;
    let mut k: usize = 0;
    proof {
        assert(bv.subrange(0, bv.len() as int) =~= bv);
    }
    while k < bytes.len() && bytes[k] != 46
        invariant
            bv == bytes@,
            k <= bv.len(),
            first_dot(bv) == k + first_dot(bv.subrange(k as int, bv.len() as int)),
            forall|i: int| 0 <= i < k ==> (#[trigger] bv[i]) != 46,
        decreases bv.len() - k,
    {
        let ghost tail = bv.subrange(k as int, bv.len() as int);
        proof {
            assert(tail[0] == bv[k as int]);
            assert(tail.drop_first() =~= bv.subrange(k + 1, bv.len() as int));
        }
        k += 1;
    }
    proof {
        let tail = bv.subrange(k as int, bv.len() as int);
        if k == bv.len() {
            assert(tail.len() == 0);
        } else {
            assert(tail[0] == bv[k as int]);
        }
        assert(first_dot(bv) == k);
    }
    proof {
        broadcast use vstd::utf8::encode_utf8_valid_utf8;

        crate::wire::lemma_ascii_cut_valid(bv, k as int);
    }
    let prefix = vstd::slice::slice_to_vec(vstd::slice::slice_subrange(bytes, 0, k));
    match string_from_utf8(prefix) {
        Some(p) => {
            proof {
                vstd::utf8::decode_utf8_encode_utf8(bv.subrange(0, k as int));
            }
            Some(p)
        },
        None => {
            proof {
                assert(false);
            }
            None
        },
    }
}

/// The friendly message shown when the requested address is the relay's
/// own base address: the expected syntax, with the port when it is not the
/// game's default.
pub open spec fn spec_syntax_hint(address: Seq<char>, port: u16) -> Seq<char> {
    if port == 25565 {
        "Please use the syntax my-connection-id."@ + address
    } else {
        "Please use the syntax my-connection-id."@ + address + ":"@ + crate::text::dec_chars(
            port as nat,
        )
    }
}

pub fn syntax_hint(address: &String, port: u16) -> (r: String)
    ensures
        r@ == spec_syntax_hint(address@, port),
{
    let mut m = String::from_str("Please use the syntax my-connection-id.");
    m.append(address.as_str());
    if port != 25565 {
        m.append(":");
        m.append(crate::text::u64_to_string(port as u64).as_str());
    }
    m
}

/// The message shown when the requested identifier names no session.
pub open spec fn spec_not_found_text(id_text: Seq<char>) -> Seq<char> {
    "Couldn't find server with ID "@ + id_text
}

pub fn not_found_message(id_text: &String) -> (r: String)
    ensures
        r@ == spec_not_found_text(id_text@),
{
    let mut m = String::from_str("Couldn't find server with ID ");
    m.append(id_text.as_str());
    m
}

/// The JSON body of a disconnect notice.
pub open spec fn spec_disconnect_json(message: Seq<char>) -> Seq<char> {
    "{\"text\":\""@ + message + "\",\"color\":\"red\"}"@
}

/// The packets that refuse an ingress connection: for the status state a
/// status response and a pong, for the login state a login disconnect.
pub open spec fn spec_disconnect_packets(next_state: u8, message: Seq<char>) -> Seq<Seq<u8>> {
    let json = spec_disconnect_json(message);
    if next_state == 1 {
        let body = "{\"description\":"@ + json + "}"@;
        let data = seq![0u8] + enc_varint(encode_utf8(body).len() as u32) + encode_utf8(body);
        let pong = seq![1u8, 0u8, 0u8, 0u8, 0u8, 0u8, 0u8, 0u8, 0u8];
        seq![
            enc_varint(data.len() as u32) + data,
            enc_varint(pong.len() as u32) + pong,
        ]
    } else if next_state == 2 {
        let data = seq![0u8] + enc_varint(encode_utf8(json).len() as u32) + encode_utf8(json);
        seq![enc_varint(data.len() as u32) + data]
    } else {
        let data = seq![0u8];
        seq![enc_varint(data.len() as u32) + data]
    }
}

/// Builds the refusal packets for an ingress connection. The message must
/// be modest in size; the callers' messages are.
pub fn disconnect_packets(next_state: u8, message: &String) -> (r: Vec<Vec<u8>>)
    requires
        encode_utf8(message@).len() <= 0xffff,
    ensures
        Seq::new(r@.len(), |i: int| r@[i]@) == spec_disconnect_packets(next_state, message@),
{
    let mut json = String::from_str("{\"text\":\"");
    json.append(message.as_str());
    json.append("\",\"color\":\"red\"}");
    proof {
        assert(json@ =~= spec_disconnect_json(message@));
    }
    let mut packets: Vec<Vec<u8>> = Vec::new();
    if next_state == 1 {
        let mut body = String::from_str("{\"description\":");
        body.append(json.as_str());
        body.append("}");
        proof {
            assert(body@ =~= "{\"description\":"@ + spec_disconnect_json(message@) + "}"@);
        }
        let body_bytes = body.as_str().as_bytes();
        let mut data: Vec<u8> = Vec::new();
        put_u8(&mut data, 0);
        proof {
            lemma_enc_utf8_len_bound(message@, body@);
        }
        put_varint(&mut data, body_bytes.len() as u32);
        put_bytes(&mut data, body_bytes);
        let mut packet: Vec<u8> = Vec::new();
        put_varint(&mut packet, data.len() as u32);
        put_bytes(&mut packet, data.as_slice());
        packets.push(packet);
        let mut pong: Vec<u8> = Vec::new();
        put_u8(&mut pong, 1);
        let mut z: usize = 0;
        while z < 8
            invariant
                1 <= pong@.len() == 1 + z,
                z <= 8,
                pong@ =~= seq![1u8, 0u8, 0u8, 0u8, 0u8, 0u8, 0u8, 0u8, 0u8].subrange(
                    0,
                    1 + z,
                ),
            decreases 8 - z,
        {
            put_u8(&mut pong, 0);
            z += 1;
        }
        proof {
            assert(pong@ =~= seq![1u8, 0u8, 0u8, 0u8, 0u8, 0u8, 0u8, 0u8, 0u8]);
        }
        let mut pong_packet: Vec<u8> = Vec::new();
        put_varint(&mut pong_packet, pong.len() as u32);
        put_bytes(&mut pong_packet, pong.as_slice());
        packets.push(pong_packet);
    } else if next_state == 2 {
        let json_bytes = json.as_str().as_bytes();
        let mut data: Vec<u8> = Vec::new();
        put_u8(&mut data, 0);
        proof {
            lemma_enc_utf8_len_bound2(message@, json@);
        }
        put_varint(&mut data, json_bytes.len() as u32);
        put_bytes(&mut data, json_bytes);
        let mut packet: Vec<u8> = Vec::new();
        put_varint(&mut packet, data.len() as u32);
        put_bytes(&mut packet, data.as_slice());
        packets.push(packet);
    } else {
        let mut data: Vec<u8> = Vec::new();
        put_u8(&mut data, 0);
        let mut packet: Vec<u8> = Vec::new();
        put_varint(&mut packet, data.len() as u32);
        put_bytes(&mut packet, data.as_slice());
        packets.push(packet);
    }
    proof {
        assert(Seq::new(packets@.len(), |i: int| packets@[i]@) =~= spec_disconnect_packets(
            next_state,
            message@,
        ));
    }
    packets
}

/// The UTF-8 form of a short wrapper stays far below the length prefix's
/// range.
proof fn lemma_enc_utf8_len_bound(message: Seq<char>, body: Seq<char>)
    requires
        encode_utf8(message).len() <= 0xffff,
        body == "{\"description\":"@ + spec_disconnect_json(message) + "}"@,
    ensures
        encode_utf8(body).len() < 0x100000,
{
    lemma_encode_utf8_concat("{\"description\":"@ + spec_disconnect_json(message), "}"@);
    lemma_encode_utf8_concat("{\"description\":"@, spec_disconnect_json(message));
    lemma_encode_utf8_concat("{\"text\":\""@ + message, "\",\"color\":\"red\"}"@);
    lemma_encode_utf8_concat("{\"text\":\""@, message);
    lemma_encode_ascii_len("{\"description\":"@);
    lemma_encode_ascii_len("}"@);
    lemma_encode_ascii_len("{\"text\":\""@);
    lemma_encode_ascii_len("\",\"color\":\"red\"}"@);
    reveal_strlit("{\"description\":");
    reveal_strlit("}");
    reveal_strlit("{\"text\":\"");
    reveal_strlit("\",\"color\":\"red\"}");
}

proof fn lemma_enc_utf8_len_bound2(message: Seq<char>, json: Seq<char>)
    requires
        encode_utf8(message).len() <= 0xffff,
        json == spec_disconnect_json(message),
    ensures
        encode_utf8(json).len() < 0x100000,
{
    lemma_encode_utf8_concat("{\"text\":\""@ + message, "\",\"color\":\"red\"}"@);
    lemma_encode_utf8_concat("{\"text\":\""@, message);
    lemma_encode_ascii_len("{\"text\":\""@);
    lemma_encode_ascii_len("\",\"color\":\"red\"}"@);
    reveal_strlit("{\"text\":\"");
    reveal_strlit("\",\"color\":\"red\"}");
}

/// UTF-8 encoding distributes over concatenation.
pub proof fn lemma_encode_utf8_concat(a: Seq<char>, b: Seq<char>)
    ensures
        encode_utf8(a + b) == encode_utf8(a) + encode_utf8(b),
    decreases a.len(),
{
    if a.len() == 0 {
        assert(a + b =~= b);
        assert(encode_utf8(a) =~= Seq::<u8>::empty());
        assert(encode_utf8(a) + encode_utf8(b) =~= encode_utf8(b));
    } else {
        assert((a + b)[0] == a[0]);
        assert((a + b).drop_first() =~= a.drop_first() + b);
        lemma_encode_utf8_concat(a.drop_first(), b);
        assert(vstd::utf8::encode_scalar(a[0] as u32) + (encode_utf8(a.drop_first())
            + encode_utf8(b)) =~= (vstd::utf8::encode_scalar(a[0] as u32) + encode_utf8(
            a.drop_first(),
        )) + encode_utf8(b));
    }
}

/// Every character encodes to at most four bytes.
pub proof fn lemma_encode_ascii_len(s: Seq<char>)
    ensures
        encode_utf8(s).len() <= 4 * s.len(),
    decreases s.len(),
{
    if s.len() > 0 {
        lemma_encode_ascii_len(s.drop_first());
    }
}

/// How long a relay keeps retrying a failed delivery while the hosting
/// client may be reconnecting, in milliseconds.
pub const PROXY_RETRY_WINDOW_MS: u64 = 5000;

/// How long the relay waits between delivery retries, in milliseconds.
pub const PROXY_RETRY_INTERVAL_MS: u64 = 50;

/// Whether a failed relay delivery should still be retried.
pub fn should_retry_proxy_send(elapsed_ms: u64) -> (r: bool)
    ensures
        r <==> elapsed_ms <= PROXY_RETRY_WINDOW_MS,
{
    elapsed_ms <= PROXY_RETRY_WINDOW_MS
}

/// Re-frames the sniffed handshake for the hosting client: the original
/// body, preceded by its length.
pub fn reframe_handshake(data: &Vec<u8>) -> (r: Vec<u8>)
    requires
        data@.len() <= u32::MAX,
    ensures
        r@ == enc_varint(data@.len() as u32) + data@,
{
    let mut out: Vec<u8> = Vec::new();
    put_varint(&mut out, data.len() as u32);
    put_bytes(&mut out, data.as_slice());
    proof {
        assert(out@ =~= enc_varint(data@.len() as u32) + data@);
    }
    out
}

} // verus!
