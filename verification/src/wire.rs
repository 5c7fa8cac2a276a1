//! Byte-level wire primitives: big-endian integers, length-prefixed strings,
//! and a cursor for reading frames. Spec-level combinators (`sp_*`) define
//! what each primitive reads; the executable reader and writers are verified
//! against them.

use vstd::prelude::*;
use vstd::utf8::{valid_utf8, decode_utf8, encode_utf8};

verus! {

/// 256 to the power `n`.
pub open spec fn pow256(n: nat) -> nat
    decreases n,
{
    if n == 0 {
        1
    } else {
        256 * pow256((n - 1) as nat)
    }
}

pub proof fn lemma_pow256_values()
    ensures
        pow256(0) == 1,
        pow256(1) == 0x100,
        pow256(2) == 0x10000,
        pow256(4) == 0x100000000,
        pow256(8) == 0x10000000000000000,
        pow256(15) == 0x1000000000000000000000000000000,
        pow256(16) == 0x100000000000000000000000000000000,
{
    assert(pow256(0) == 1);
    assert(pow256(1) == 256 * pow256(0));
    assert(pow256(2) == 256 * pow256(1));
    assert(pow256(3) == 256 * pow256(2));
    assert(pow256(4) == 256 * pow256(3));
    assert(pow256(5) == 256 * pow256(4));
    assert(pow256(6) == 256 * pow256(5));
    assert(pow256(7) == 256 * pow256(6));
    assert(pow256(8) == 256 * pow256(7));
    assert(pow256(9) == 256 * pow256(8));
    assert(pow256(10) == 256 * pow256(9));
    assert(pow256(11) == 256 * pow256(10));
    assert(pow256(12) == 256 * pow256(11));
    assert(pow256(13) == 256 * pow256(12));
    assert(pow256(14) == 256 * pow256(13));
    assert(pow256(15) == 256 * pow256(14));
    assert(pow256(16) == 256 * pow256(15));
}

/// The unsigned big-endian value of a byte sequence.
pub open spec fn be_value(s: Seq<u8>) -> nat
    decreases s.len(),
{
    if s.len() == 0 {
        0
    } else {
        (be_value(s.drop_last()) * 256 + s.last()) as nat
    }
}

/// The `n`-byte big-endian encoding of `x` (modulo 256^n).
pub open spec fn be_bytes(x: nat, n: nat) -> Seq<u8>
    decreases n,
{
    if n == 0 {
        seq![]
    } else {
        be_bytes(x / 256, (n - 1) as nat).push((x % 256) as u8)
    }
}

pub proof fn lemma_be_bytes_len(x: nat, n: nat)
    ensures
        be_bytes(x, n).len() == n,
    decreases n,
{
    if n > 0 {
        lemma_be_bytes_len(x / 256, (n - 1) as nat);
    }
}

pub proof fn lemma_be_value_bound(s: Seq<u8>)
    ensures
        be_value(s) < pow256(s.len()),
    decreases s.len(),
{
    if s.len() > 0 {
        lemma_be_value_bound(s.drop_last());
    }
}

pub proof fn lemma_be_value_of_be_bytes(x: nat, n: nat)
    requires
        x < pow256(n),
    ensures
        be_value(be_bytes(x, n)) == x,
    decreases n,
{
    if n > 0 {
        lemma_be_bytes_len(x / 256, (n - 1) as nat);
        assert(be_bytes(x, n).drop_last() =~= be_bytes(x / 256, (n - 1) as nat));
        assert(x / 256 < pow256((n - 1) as nat)) by {
            assert(pow256(n) == 256 * pow256((n - 1) as nat));
        }
        lemma_be_value_of_be_bytes(x / 256, (n - 1) as nat);
    }
}

pub proof fn lemma_be_value_push(s: Seq<u8>, b: u8)
    ensures
        be_value(s.push(b)) == be_value(s) * 256 + b,
{
    assert(s.push(b).drop_last() =~= s);
    assert(s.push(b).last() == b);
}

/// Reads `n` raw bytes at offset `i`.
pub open spec fn sp_take(s: Seq<u8>, i: int, n: int) -> Option<(Seq<u8>, int)> {
    if 0 <= i && 0 <= n && i + n <= s.len() {
        Some((s.subrange(i, i + n), i + n))
    } else {
        None
    }
}

/// Reads one byte at offset `i`.
pub open spec fn sp_u8(s: Seq<u8>, i: int) -> Option<(u8, int)> {
    if 0 <= i && i + 1 <= s.len() {
        Some((s[i], i + 1))
    } else {
        None
    }
}

/// Reads a big-endian 16-bit value at offset `i`.
pub open spec fn sp_u16(s: Seq<u8>, i: int) -> Option<(u16, int)> {
    match sp_take(s, i, 2) {
        Some((b, j)) => Some((be_value(b) as u16, j)),
        None => None,
    }
}

/// Reads a big-endian 32-bit value at offset `i`.
pub open spec fn sp_u32(s: Seq<u8>, i: int) -> Option<(u32, int)> {
    match sp_take(s, i, 4) {
        Some((b, j)) => Some((be_value(b) as u32, j)),
        None => None,
    }
}

/// Reads a big-endian 64-bit value at offset `i`.
pub open spec fn sp_u64(s: Seq<u8>, i: int) -> Option<(u64, int)> {
    match sp_take(s, i, 8) {
        Some((b, j)) => Some((be_value(b) as u64, j)),
        None => None,
    }
}

/// Reads a big-endian 128-bit value at offset `i`.
pub open spec fn sp_u128(s: Seq<u8>, i: int) -> Option<(u128, int)> {
    match sp_take(s, i, 16) {
        Some((b, j)) => Some((be_value(b) as u128, j)),
        None => None,
    }
}

/// Reads a string: a 16-bit byte length followed by that many UTF-8 bytes.
pub open spec fn sp_string(s: Seq<u8>, i: int) -> Option<(Seq<char>, int)> {
    match sp_u16(s, i) {
        Some((n, j)) => match sp_take(s, j, n as int) {
            Some((b, k)) => if valid_utf8(b) {
                Some((decode_utf8(b), k))
            } else {
                None
            },
            None => None,
        },
        None => None,
    }
}

/// The wire encoding of a string: 16-bit byte length, then the UTF-8 bytes.
pub open spec fn enc_string(chars: Seq<char>) -> Seq<u8> {
    be_bytes(encode_utf8(chars).len(), 2) + encode_utf8(chars)
}

pub proof fn lemma_sp_u8_at(s: Seq<u8>, i: int, x: u8)
    requires
        0 <= i,
        i + 1 <= s.len(),
        s[i] == x,
    ensures
        sp_u8(s, i) == Some((x, i + 1)),
{
}

pub proof fn lemma_sp_u16_at(s: Seq<u8>, i: int, x: u16)
    requires
        0 <= i,
        i + 2 <= s.len(),
        s.subrange(i, i + 2) =~= be_bytes(x as nat, 2),
    ensures
        sp_u16(s, i) == Some((x, i + 2)),
{
    lemma_pow256_values();
    lemma_be_value_of_be_bytes(x as nat, 2);
}

pub proof fn lemma_sp_u32_at(s: Seq<u8>, i: int, x: u32)
    requires
        0 <= i,
        i + 4 <= s.len(),
        s.subrange(i, i + 4) =~= be_bytes(x as nat, 4),
    ensures
        sp_u32(s, i) == Some((x, i + 4)),
{
    lemma_pow256_values();
    lemma_be_value_of_be_bytes(x as nat, 4);
}

pub proof fn lemma_sp_u64_at(s: Seq<u8>, i: int, x: u64)
    requires
        0 <= i,
        i + 8 <= s.len(),
        s.subrange(i, i + 8) =~= be_bytes(x as nat, 8),
    ensures
        sp_u64(s, i) == Some((x, i + 8)),
{
    lemma_pow256_values();
    lemma_be_value_of_be_bytes(x as nat, 8);
}

pub proof fn lemma_sp_u128_at(s: Seq<u8>, i: int, x: u128)
    requires
        0 <= i,
        i + 16 <= s.len(),
        s.subrange(i, i + 16) =~= be_bytes(x as nat, 16),
    ensures
        sp_u128(s, i) == Some((x, i + 16)),
{
    lemma_pow256_values();
    lemma_be_value_of_be_bytes(x as nat, 16);
}

pub proof fn lemma_sp_string_at(s: Seq<u8>, i: int, chars: Seq<char>)
    requires
        0 <= i,
        encode_utf8(chars).len() <= 0xffff,
        i + enc_string(chars).len() <= s.len(),
        s.subrange(i, i + enc_string(chars).len()) =~= enc_string(chars),
    ensures
        sp_string(s, i) == Some((chars, i + enc_string(chars).len())),
{
    broadcast use vstd::utf8::encode_utf8_valid_utf8, vstd::utf8::encode_utf8_decode_utf8;

    let bytes = encode_utf8(chars);
    let n = bytes.len() as int;
    lemma_be_bytes_len(n as nat, 2);
    let enc = enc_string(chars);
    assert(enc.len() == 2 + n);
    assert forall|j: int| 0 <= j < enc.len() implies s[i + j] == enc[j] by {
        assert(s.subrange(i, i + enc_string(chars).len())[j] == enc[j]);
    }
    assert(s.subrange(i, i + 2) =~= be_bytes(n as nat, 2));
    lemma_sp_u16_at(s, i, n as u16);
    assert forall|j: int| 0 <= j < n implies s.subrange(i + 2, i + 2 + n)[j] == bytes[j] by {
        assert(s[i + (2 + j)] == enc[2 + j]);
        assert(enc[2 + j] == bytes[j]);
    }
    assert(s.subrange(i + 2, i + 2 + n) =~= bytes);
}

/// A cursor over a byte slice, advancing as values are read.
pub struct Reader<'a> {
    data: &'a [u8],
    pos: usize,
}

impl<'a> Reader<'a> {
    pub closed spec fn spec_data(&self) -> Seq<u8> {
        self.data@
    }

    pub closed spec fn spec_pos(&self) -> int {
        self.pos as int
    }

    pub open spec fn wf(&self) -> bool {
        0 <= self.spec_pos() <= self.spec_data().len()
    }

    pub fn new(data: &'a [u8]) -> (r: Reader<'a>)
        ensures
            r.wf(),
            r.spec_data() == data@,
            r.spec_pos() == 0,
    {
        Reader { data, pos: 0 }
    }

    /// Number of bytes not yet read.
    pub fn remaining(&self) -> (r: usize)
        requires
            self.wf(),
        ensures
            r == self.spec_data().len() - self.spec_pos(),
    {
        self.data.len() - self.pos
    }

    /// Reads `n` raw bytes.
    pub fn take(&mut self, n: usize) -> (r: Result<Vec<u8>, String>)
        requires
            old(self).wf(),
        ensures
            final(self).wf(),
            final(self).spec_data() == old(self).spec_data(),
            match sp_take(old(self).spec_data(), old(self).spec_pos(), n as int) {
                Some(p) => r matches Ok(v) && v@ == p.0 && final(self).spec_pos() == p.1,
                None => r is Err && final(self).spec_pos() == old(self).spec_pos(),
            },
    {
        if n > self.data.len() - self.pos {
            return Err(String::from_str("Unexpected end of data"));
        }
        let mut out: Vec<u8> = Vec::new();
        let mut k: usize = 0;
        let dlen = self.data.len();
        while k < n
            invariant
                self.wf(),
                dlen == self.spec_data().len(),
                self.spec_pos() + n <= self.spec_data().len(),
                k <= n,
                out@ =~= self.spec_data().subrange(self.spec_pos(), self.spec_pos() + k),
            decreases n - k,
        {
            out.push(self.data[self.pos + k]);
            k += 1;
        }
        proof {
            assert(out@ =~= self.spec_data().subrange(self.spec_pos(), self.spec_pos() + n as int));
        }
        self.pos = self.pos + n;
        Ok(out)
    }

    /// Reads all bytes that remain.
    pub fn rest(&mut self) -> (r: Vec<u8>)
        requires
            old(self).wf(),
        ensures
            final(self).wf(),
            final(self).spec_data() == old(self).spec_data(),
            r@ == old(self).spec_data().subrange(
                old(self).spec_pos(),
                old(self).spec_data().len() as int,
            ),
            final(self).spec_pos() == final(self).spec_data().len(),
    {
        let n = self.data.len() - self.pos;
        match self.take(n) {
            Ok(v) => v,
            Err(_) => {
                proof {
                    assert(false);
                }
                Vec::new()
            },
        }
    }

    pub fn be_read(&mut self, n: usize) -> (r: Result<u128, String>)
        requires
            old(self).wf(),
            n <= 16,
        ensures
            final(self).wf(),
            final(self).spec_data() == old(self).spec_data(),
            match sp_take(old(self).spec_data(), old(self).spec_pos(), n as int) {
                Some(p) => r matches Ok(v) && v == be_value(p.0) && final(self).spec_pos() == p.1,
                None => r is Err && final(self).spec_pos() == old(self).spec_pos(),
            },
    {
        if n > self.data.len() - self.pos {
            return Err(String::from_str("Unexpected end of data"));
        }
        let ghost s = self.spec_data();
        let ghost p = self.spec_pos();
        let mut v: u128 = 0;
        let mut k: usize = 0;
        let dlen = self.data.len();
        proof {
            assert(s.subrange(p, p + 0) =~= Seq::<u8>::empty());
            assert(be_value(Seq::<u8>::empty()) == 0);
        }
        while k < n
            invariant
                self.wf(),
                s == self.spec_data(),
                p == self.spec_pos(),
                dlen == s.len(),
                p + n <= s.len(),
                k <= n <= 16,
                v == be_value(s.subrange(p, p + k)),
                v < pow256(k as nat),
            decreases n - k,
        {
            let b = self.data[self.pos + k];
            proof {
                let sub = s.subrange(p, p + k);
                lemma_be_value_push(sub, s[p + k]);
                assert(sub.push(s[p + k]) =~= s.subrange(p, p + k + 1));
                assert(pow256((k + 1) as nat) == 256 * pow256(k as nat));
                lemma_pow256_values();
                assert(pow256(k as nat) <= pow256(15nat)) by {
                    lemma_pow256_le(k as nat, 15nat);
                }
            }
            v = v * 256 + (b as u128);
            k += 1;
        }
        self.pos = self.pos + n;
        Ok(v)
    }

    pub fn get_u8(&mut self) -> (r: Result<u8, String>)
        requires
            old(self).wf(),
        ensures
            final(self).wf(),
            final(self).spec_data() == old(self).spec_data(),
            match sp_u8(old(self).spec_data(), old(self).spec_pos()) {
                Some(p) => r matches Ok(v) && v == p.0 && final(self).spec_pos() == p.1,
                None => r is Err && final(self).spec_pos() == old(self).spec_pos(),
            },
    {
        let ghost s = old(self).spec_data();
        let ghost i = old(self).spec_pos();
        let r = self.be_read(1);
        proof {
            if i + 1 <= s.len() {
                let sub = s.subrange(i, i + 1);
                assert(sub.drop_last() =~= Seq::<u8>::empty());
                assert(be_value(Seq::<u8>::empty()) == 0);
                assert(sub.last() == s[i]);
                assert(be_value(sub) == s[i]);
            }
        }
        match r {
            Ok(v) => Ok(v as u8),
            Err(e) => Err(e),
        }
    }

    pub fn get_u16(&mut self) -> (r: Result<u16, String>)
        requires
            old(self).wf(),
        ensures
            final(self).wf(),
            final(self).spec_data() == old(self).spec_data(),
            match sp_u16(old(self).spec_data(), old(self).spec_pos()) {
                Some(p) => r matches Ok(v) && v == p.0 && final(self).spec_pos() == p.1,
                None => r is Err && final(self).spec_pos() == old(self).spec_pos(),
            },
    {
        let ghost s = old(self).spec_data();
        let ghost i = old(self).spec_pos();
        let r = self.be_read(2);
        proof {
            if i + 2 <= s.len() {
                lemma_be_value_bound(s.subrange(i, i + 2));
                lemma_pow256_values();
            }
        }
        match r {
            Ok(v) => Ok(v as u16),
            Err(e) => Err(e),
        }
    }

    pub fn get_u32(&mut self) -> (r: Result<u32, String>)
        requires
            old(self).wf(),
        ensures
            final(self).wf(),
            final(self).spec_data() == old(self).spec_data(),
            match sp_u32(old(self).spec_data(), old(self).spec_pos()) {
                Some(p) => r matches Ok(v) && v == p.0 && final(self).spec_pos() == p.1,
                None => r is Err && final(self).spec_pos() == old(self).spec_pos(),
            },
    {
        let ghost s = old(self).spec_data();
        let ghost i = old(self).spec_pos();
        let r = self.be_read(4);
        proof {
            if i + 4 <= s.len() {
                lemma_be_value_bound(s.subrange(i, i + 4));
                lemma_pow256_values();
            }
        }
        match r {
            Ok(v) => Ok(v as u32),
            Err(e) => Err(e),
        }
    }

    pub fn get_u64(&mut self) -> (r: Result<u64, String>)
        requires
            old(self).wf(),
        ensures
            final(self).wf(),
            final(self).spec_data() == old(self).spec_data(),
            match sp_u64(old(self).spec_data(), old(self).spec_pos()) {
                Some(p) => r matches Ok(v) && v == p.0 && final(self).spec_pos() == p.1,
                None => r is Err && final(self).spec_pos() == old(self).spec_pos(),
            },
    {
        let ghost s = old(self).spec_data();
        let ghost i = old(self).spec_pos();
        let r = self.be_read(8);
        proof {
            if i + 8 <= s.len() {
                lemma_be_value_bound(s.subrange(i, i + 8));
                lemma_pow256_values();
            }
        }
        match r {
            Ok(v) => Ok(v as u64),
            Err(e) => Err(e),
        }
    }

    pub fn get_u128(&mut self) -> (r: Result<u128, String>)
        requires
            old(self).wf(),
        ensures
            final(self).wf(),
            final(self).spec_data() == old(self).spec_data(),
            match sp_u128(old(self).spec_data(), old(self).spec_pos()) {
                Some(p) => r matches Ok(v) && v == p.0 && final(self).spec_pos() == p.1,
                None => r is Err && final(self).spec_pos() == old(self).spec_pos(),
            },
    {
        self.be_read(16)
    }

    /// Reads a 16-bit length followed by that many UTF-8 bytes.
    pub fn get_string(&mut self) -> (r: Result<String, String>)
        requires
            old(self).wf(),
        ensures
            final(self).wf(),
            final(self).spec_data() == old(self).spec_data(),
            match sp_string(old(self).spec_data(), old(self).spec_pos()) {
                Some(p) => r matches Ok(v) && v@ == p.0 && final(self).spec_pos() == p.1,
                None => r is Err,
            },
    {
        let n = match self.get_u16() {
            Ok(n) => n,
            Err(e) => {
                return Err(e);
            },
        };
        let bytes = match self.take(n as usize) {
            Ok(b) => b,
            Err(e) => {
                return Err(e);
            },
        };
        match string_from_utf8(bytes) {
            Some(s) => Ok(s),
            None => Err(String::from_str("Invalid UTF-8 in string")),
        }
    }
}

pub proof fn lemma_pow256_le(a: nat, b: nat)
    requires
        a <= b,
    ensures
        pow256(a) <= pow256(b),
    decreases b,
{
    if a < b && b > 0 {
        lemma_pow256_le(a, (b - 1) as nat);
        assert(pow256(b) == 256 * pow256((b - 1) as nat));
        assert(pow256((b - 1) as nat) >= 1) by {
            lemma_pow256_pos((b - 1) as nat);
        }
    }
}

proof fn lemma_pow256_pos(n: nat)
    ensures
        pow256(n) >= 1,
    decreases n,
{
    if n > 0 {
        lemma_pow256_pos((n - 1) as nat);
    }
}

/// Relies on `String::from_utf8`: it succeeds exactly on valid UTF-8 input
/// and returns the string those bytes encode.
#[verifier::external_body]
pub fn string_from_utf8(v: Vec<u8>) -> (r: Option<String>)
    ensures
        r is Some <==> valid_utf8(v@),
        r matches Some(s) ==> s@ == decode_utf8(v@),
{
    String::from_utf8(v).ok()
}

/// Appends the `n`-byte big-endian encoding of `x`.
pub fn put_be(out: &mut Vec<u8>, x: u128, n: usize)
    ensures
        final(out)@ == old(out)@ + be_bytes(x as nat, n as nat),
    decreases n,
{
    if n == 0 {
        proof {
            assert(out@ =~= old(out)@ + be_bytes(x as nat, 0));
        }
    } else {
        put_be(out, x / 256, n - 1);
        out.push((x % 256) as u8);
        proof {
            assert(out@ =~= old(out)@ + be_bytes(x as nat, n as nat));
        }
    }
}

pub fn put_u8(out: &mut Vec<u8>, x: u8)
    ensures
        final(out)@ == old(out)@ + seq![x],
{
    out.push(x);
    proof {
        assert(out@ =~= old(out)@ + seq![x]);
    }
}

pub fn put_u16(out: &mut Vec<u8>, x: u16)
    ensures
        final(out)@ == old(out)@ + be_bytes(x as nat, 2),
{
    put_be(out, x as u128, 2);
}

pub fn put_u32(out: &mut Vec<u8>, x: u32)
    ensures
        final(out)@ == old(out)@ + be_bytes(x as nat, 4),
{
    put_be(out, x as u128, 4);
}

pub fn put_u64(out: &mut Vec<u8>, x: u64)
    ensures
        final(out)@ == old(out)@ + be_bytes(x as nat, 8),
{
    put_be(out, x as u128, 8);
}

pub fn put_u128(out: &mut Vec<u8>, x: u128)
    ensures
        final(out)@ == old(out)@ + be_bytes(x as nat, 16),
{
    put_be(out, x, 16);
}

/// Appends a byte slice.
pub fn put_bytes(out: &mut Vec<u8>, bytes: &[u8])
    ensures
        final(out)@ == old(out)@ + bytes@,
{
    let mut k: usize = 0;
    while k < bytes.len()
        invariant
            k <= bytes@.len(),
            out@ =~= old(out)@ + bytes@.subrange(0, k as int),
        decreases bytes@.len() - k,
    {
        out.push(bytes[k]);
        k += 1;
    }
    proof {
        assert(out@ =~= old(out)@ + bytes@);
    }
}

/// Appends a string: 16-bit byte length, then the UTF-8 bytes.
pub fn put_string(out: &mut Vec<u8>, s: &str)
    requires
        encode_utf8(s@).len() <= 0xffff,
    ensures
        final(out)@ == old(out)@ + enc_string(s@),
{
    let bytes = s.as_bytes();
    put_u16(out, bytes.len() as u16);
    put_bytes(out, bytes);
    proof {
        assert(out@ =~= old(out)@ + enc_string(s@));
    }
}


/// Cutting a valid UTF-8 byte string immediately before an ASCII byte (or
/// at either end) leaves two valid halves whose decodings concatenate.
pub proof fn lemma_ascii_cut_valid(bytes: Seq<u8>, i: int)
    requires
        valid_utf8(bytes),
        0 <= i <= bytes.len(),
        i < bytes.len() ==> bytes[i] < 0x80,
    ensures
        valid_utf8(bytes.subrange(0, i)),
        valid_utf8(bytes.subrange(i, bytes.len() as int)),
        decode_utf8(bytes) == decode_utf8(bytes.subrange(0, i)) + decode_utf8(
            bytes.subrange(i, bytes.len() as int),
        ),
{
    if i == bytes.len() {
        vstd::utf8::is_char_boundary_start_end_of_seq(bytes);
    } else {
        vstd::utf8::is_char_boundary_iff_not_is_continuation_byte(bytes, i);
    }
    vstd::utf8::valid_utf8_split(bytes, i);
    vstd::utf8::decode_utf8_split(bytes, i);
}

/// Dropping a leading ASCII byte from a valid UTF-8 byte string leaves a
/// valid remainder; the byte stood for exactly its own character.
pub proof fn lemma_drop_ascii_head(bytes: Seq<u8>)
    requires
        valid_utf8(bytes),
        bytes.len() > 0,
        bytes[0] < 0x80,
    ensures
        valid_utf8(bytes.subrange(1, bytes.len() as int)),
        decode_utf8(bytes) == seq![bytes[0] as char] + decode_utf8(
            bytes.subrange(1, bytes.len() as int),
        ),
{
    assert(vstd::utf8::is_leading_byte_width_1(bytes[0]));
    assert(vstd::utf8::length_of_first_scalar(bytes) == 1);
    assert(vstd::utf8::pop_first_scalar(bytes) =~= bytes.subrange(1, bytes.len() as int));
    assert(valid_utf8(vstd::utf8::pop_first_scalar(bytes)));
    let b = bytes[0];
    assert(b < 0x80 ==> (b as u32) & 0x7f == b as u32) by (bit_vector);
    assert(vstd::utf8::decode_first_scalar(bytes) == bytes[0] as u32);
    assert(decode_utf8(bytes) == seq![
        (vstd::utf8::decode_first_scalar(bytes) as char),
    ] + decode_utf8(vstd::utf8::pop_first_scalar(bytes)));
    assert((bytes[0] as u32) as char == bytes[0] as char);
}

} // verus!
