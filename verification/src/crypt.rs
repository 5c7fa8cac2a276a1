//! The cryptographic edge of the handshake: RSA key handling, the AES/CFB8
//! stream ciphers, digests, and the identity derivations built on them.
//! The outside calls stand behind trusted wrappers; the bit manipulation on
//! their results is verified.

use vstd::prelude::*;
use md5::Digest as Md5DigestTrait;
use sha1::Digest as Sha1DigestTrait;
use cfb8::cipher::AsyncStreamCipher;
use cfb8::cipher::NewCipher;
use rand::RngCore;
use rsa::pkcs8::EncodePublicKey;
use crate::ids::Uuid;
use crate::wire::{be_value, lemma_be_value_bound, lemma_pow256_values, Reader};

verus! {

/// The MD5 digest of a byte string: sixteen bytes determined by the input
/// alone.
pub uninterp spec fn md5_of(data: Seq<u8>) -> Seq<u8>;

/// Relies on `md5::Md5::digest` (the `md-5` crate): the digest is sixteen
/// bytes and depends on the input alone.
#[verifier::external_body]
pub fn md5_digest(data: &[u8]) -> (r: Vec<u8>)
    ensures
        r@ == md5_of(data@),
        r@.len() == 16,
{
    let mut out = Vec::new();
    out.extend_from_slice(&md5::Md5::digest(data));
    out
}

/// The SHA-1 digest of a byte string: twenty bytes determined by the input
/// alone.
pub uninterp spec fn sha1_of(data: Seq<u8>) -> Seq<u8>;

/// Relies on `sha1::Sha1`: the digest is twenty bytes and depends on the
/// input alone.
#[verifier::external_body]
pub fn sha1_digest(data: &[u8]) -> (r: Vec<u8>)
    ensures
        r@ == sha1_of(data@),
        r@.len() == 20,
{
    let mut out = Vec::new();
    out.extend_from_slice(&sha1::Sha1::digest(data));
    out
}

/// The lowercase hexadecimal rendering of a byte string read as a signed
/// big-endian two's-complement integer, as `num_bigint` renders it: no
/// leading zeros, a minus sign for a negative value.
pub uninterp spec fn signed_hex_of(data: Seq<u8>) -> Seq<char>;

/// Relies on `num_bigint::BigInt::from_signed_bytes_be` and
/// `BigInt::to_str_radix`: the result depends on the bytes alone.
#[verifier::external_body]
pub fn signed_hex(data: &[u8]) -> (r: String)
    ensures
        r@ == signed_hex_of(data@),
{
    num_bigint::BigInt::from_signed_bytes_be(data).to_str_radix(16)
}

/// An RSA key pair for the handshake.
#[verifier::external_type_specification]
#[verifier::external_body]
pub struct ExRsaPrivateKey(rsa::RsaPrivateKey);

#[verifier::external_type_specification]
#[verifier::external_body]
pub struct ExRsaPublicKey(rsa::RsaPublicKey);

/// The server's RSA key pair.
pub struct RsaKeyPair {
    pub private: rsa::RsaPrivateKey,
    pub public: rsa::RsaPublicKey,
}

/// Relies on `rsa::RsaPrivateKey::new` with a 1024-bit modulus and
/// `rsa::RsaPublicKey::from`; the keys are random, so nothing is promised
/// of them.
#[verifier::external_body]
pub fn generate_key_pair() -> (r: Option<RsaKeyPair>)
{
    let mut rng = rand::thread_rng();
    match rsa::RsaPrivateKey::new(&mut rng, 1024) {
        Ok(private) => {
            let public = rsa::RsaPublicKey::from(&private);
            Some(RsaKeyPair { private, public })
        },
        Err(_) => None,
    }
}

/// Relies on `rsa::pkcs8::EncodePublicKey::to_public_key_der`: the DER
/// form of the public key, or nothing when encoding fails.
#[verifier::external_body]
pub fn public_key_der(key: &rsa::RsaPublicKey) -> (r: Option<Vec<u8>>)
{
    match key.to_public_key_der() {
        Ok(der) => Some(der.as_bytes().to_vec()),
        Err(_) => None,
    }
}

/// Relies on `rsa::RsaPrivateKey::decrypt` with PKCS#1 v1.5 padding;
/// nothing is promised of the plaintext.
#[verifier::external_body]
pub fn decrypt_using_key(key: &rsa::RsaPrivateKey, data: Vec<u8>) -> (r: Result<Vec<u8>, ()>)
{
    key.decrypt(rsa::Pkcs1v15Encrypt, &data).map_err(|_| ())
}

/// Relies on `rand::RngCore::fill_bytes` of `rand::thread_rng`: sixteen
/// random bytes; being random, only the length is promised.
#[verifier::external_body]
pub fn random_challenge() -> (r: Vec<u8>)
    ensures
        r@.len() == 16,
{
    let mut challenge = vec![0u8; 16];
    rand::thread_rng().fill_bytes(&mut challenge);
    challenge
}

/// One direction of the negotiated AES-128/CFB8 stream cipher. The cipher
/// state is opaque: Verus cannot declare `cfb8::Cfb8`'s generics, so the
/// whole struct stands behind a trusted boundary.
#[verifier::external_body]
pub struct Aes128Cfb {
    inner: cfb8::Cfb8<aes::Aes128>,
}

/// Relies on `cfb8::Cfb8::new_from_slices`, keyed with the shared secret
/// and, for compatibility with the protocol's history, an IV equal to the
/// key. Fails exactly when the slices do not fit the cipher.
#[verifier::external_body]
pub fn get_cipher(key: &[u8]) -> (r: Result<Aes128Cfb, ()>)
    ensures
        key@.len() == 16 ==> r is Ok,
{
    match cfb8::Cfb8::new_from_slices(key, key) {
        Ok(inner) => Ok(Aes128Cfb { inner }),
        Err(_) => Err(()),
    }
}

/// Relies on `cfb8::cipher::AsyncStreamCipher::encrypt`: the buffer is
/// enciphered in place, byte for byte, and the cipher state advances.
#[verifier::external_body]
pub fn cipher_encrypt(cipher: &mut Aes128Cfb, data: &mut Vec<u8>)
    ensures
        final(data)@.len() == old(data)@.len(),
{
    cipher.inner.encrypt(data)
}

/// Relies on `cfb8::cipher::AsyncStreamCipher::decrypt`: the buffer is
/// deciphered in place, byte for byte, and the cipher state advances.
#[verifier::external_body]
pub fn cipher_decrypt(cipher: &mut Aes128Cfb, data: &mut Vec<u8>)
    ensures
        final(data)@.len() == old(data)@.len(),
{
    cipher.inner.decrypt(data)
}

/// The digest the profile service is shown: SHA-1 over the server id (here
/// always empty), the shared secret, and the DER form of the public key.
pub open spec fn spec_digest_data(secret: Seq<u8>, key_der: Seq<u8>) -> Seq<u8> {
    sha1_of(secret + key_der)
}

/// Computes the handshake digest from the shared secret and the DER form
/// of the server's public key. The historical server-id prefix is the
/// empty string, so it contributes no bytes.
pub fn digest_data(secret: &Vec<u8>, key_der: &Vec<u8>) -> (r: Vec<u8>)
    ensures
        r@ == spec_digest_data(secret@, key_der@),
        r@.len() == 20,
{
    let mut buf: Vec<u8> = Vec::new();
    crate::wire::put_bytes(&mut buf, secret.as_slice());
    crate::wire::put_bytes(&mut buf, key_der.as_slice());
    proof {
        assert(buf@ =~= secret@ + key_der@);
    }
    sha1_digest(buf.as_slice())
}

/// The authentication key sent to the profile service: the handshake
/// digest read as a signed big-endian integer, in lowercase hexadecimal.
pub open spec fn spec_auth_key(secret: Seq<u8>, key_der: Seq<u8>) -> Seq<char> {
    signed_hex_of(spec_digest_data(secret, key_der))
}

pub fn compute_auth_key(secret: &Vec<u8>, key_der: &Vec<u8>) -> (r: String)
    ensures
        r@ == spec_auth_key(secret@, key_der@),
{
    let digest = digest_data(secret, key_der);
    signed_hex(digest.as_slice())
}

/// The name-based identifier derivation: the MD5 of the name, with the
/// version field forced to three and the variant bits to the RFC 4122
/// form.
pub open spec fn spec_name_uuid(name: Seq<u8>) -> Uuid {
    let d = md5_of(name);
    let bytes = d.update(6, ((d[6] & 0x0f) | 0x30) as u8).update(8, ((d[8] & 0x3f) | 0x80) as u8);
    Uuid { value: be_value(bytes) as u128 }
}

/// Derives the offline-account identifier for a name, exactly as the
/// historical name-based derivation does: MD5, then version three and the
/// RFC 4122 variant.
pub fn java_name_uuid_from_bytes(name: &[u8]) -> (r: Uuid)
    ensures
        r == spec_name_uuid(name@),
        r.spec_version() == 3,
{
    let mut bytes = md5_digest(name);
    let b6 = bytes[6];
    set_byte(&mut bytes, 6, (b6 & 0x0f) | 0x30);
    let b8 = bytes[8];
    set_byte(&mut bytes, 8, (b8 & 0x3f) | 0x80);
    proof {
        let d = md5_of(name@);
        assert(bytes@ =~= d.update(6, ((d[6] & 0x0f) | 0x30) as u8).update(
            8,
            ((d[8] & 0x3f) | 0x80) as u8,
        ));
    }
    proof {
        let b6v = md5_of(name@)[6];
        assert(((b6v & 0x0f) | 0x30) & 0xf0 == 0x30) by (bit_vector);
        assert(bytes@[6] == (b6v & 0x0f) | 0x30);
    }
    let mut rd = Reader::new(bytes.as_slice());
    let value = match rd.get_u128() {
        Ok(v) => v,
        Err(_) => {
            proof {
                assert(false);
            }
            0
        },
    };
    proof {
        assert(bytes@.subrange(0, 16) =~= bytes@);
        lemma_version_bits(bytes@);
    }
    Uuid::new(value)
}

fn set_byte(v: &mut Vec<u8>, i: usize, b: u8)
    requires
        i < old(v)@.len(),
    ensures
        final(v)@ == old(v)@.update(i as int, b),
{
    let ghost s = v@;
    v.remove(i);
    v.insert(i, b);
    proof {
        assert(v@ =~= s.update(i as int, b));
    }
}

/// Byte six of the layout holds the version field in its top four bits.
proof fn lemma_version_bits(bytes: Seq<u8>)
    requires
        bytes.len() == 16,
        bytes[6] & 0xf0 == 0x30,
    ensures
        ((be_value(bytes) as u128) >> 76) & 0xf == 3,
{
    lemma_be_split(bytes, 7);
    let hi = be_value(bytes.subrange(0, 7));
    let lo = be_value(bytes.subrange(7, 16));
    lemma_be_value_bound(bytes.subrange(7, 16));
    lemma_pow256_values();
    assert(bytes.subrange(0, 7).last() == bytes[6]);
    assert(bytes.subrange(0, 7).drop_last() =~= bytes.subrange(0, 6));
    let hi6 = be_value(bytes.subrange(0, 6));
    assert(hi == hi6 * 256 + bytes[6]);
    lemma_be_value_bound(bytes.subrange(0, 6));
    let b6 = bytes[6];
    assert(b6 & 0xf0 == 0x30 ==> (b6 >> 4) & 0xf == 3) by (bit_vector);
    let v = be_value(bytes) as u128;
    lemma_be_value_bound(bytes);
    assert(crate::wire::pow256(16) == 0x100000000000000000000000000000000);
    assert(v == be_value(bytes));
    assert(be_value(bytes) == hi * crate::wire::pow256(9) + lo) by {
        lemma_be_split(bytes, 7);
    }
    assert(v == ((hi6 * 256 + b6) * 0x1000000000000000000 + lo)) by {
        assert(crate::wire::pow256(9) == 0x1000000000000000000) by {
            lemma_pow256_expand(9);
        }
    }
    assert(hi6 < 0x1000000000000);
    assert(lo < 0x1000000000000000000);
    assert((v >> 76) & 0xf == ((v / 0x10000000000000000000) as u128) % 16) by (bit_vector);
    assert(v / 0x10000000000000000000 == (hi6 * 16 + (b6 as u128) / 16)) by (nonlinear_arith)
        requires
            v == (hi6 * 256 + b6) * 0x1000000000000000000 + lo,
            lo < 0x1000000000000000000,
            hi6 >= 0,
            b6 < 256,
    ;
    assert((b6 >> 4) == b6 / 16) by (bit_vector);
    assert(((hi6 * 16 + (b6 as u128) / 16)) % 16 == (b6 as u128) / 16 % 16) by (nonlinear_arith)
        requires
            hi6 >= 0,
            b6 < 256,
    ;
    assert((b6 as u128) / 16 % 16 == ((b6 >> 4) & 0xf) as u128) by (bit_vector);
}

proof fn lemma_pow256_expand(n: nat)
    requires
        n == 9,
    ensures
        crate::wire::pow256(9) == 0x1000000000000000000,
{
    lemma_pow256_values();
    assert(crate::wire::pow256(9) == 256 * crate::wire::pow256(8));
}

/// Splitting a byte string splits its big-endian value.
proof fn lemma_be_split(s: Seq<u8>, k: int)
    requires
        0 <= k <= s.len(),
    ensures
        be_value(s) == be_value(s.subrange(0, k)) * crate::wire::pow256((s.len() - k) as nat)
            + be_value(s.subrange(k, s.len() as int)),
    decreases s.len() - k,
{
    if k == s.len() {
        assert(s.subrange(0, k) =~= s);
        assert(s.subrange(k, s.len() as int) =~= Seq::<u8>::empty());
        assert(be_value(Seq::<u8>::empty()) == 0);
        assert(crate::wire::pow256(0) == 1);
        assert(be_value(s) * 1 == be_value(s));
    } else {
        lemma_be_split(s.drop_last(), k);
        let n = s.len();
        assert(s.drop_last().subrange(0, k) =~= s.subrange(0, k));
        assert(s.drop_last().subrange(k, n - 1) =~= s.subrange(k, n - 1));
        assert(s.subrange(k, n as int).drop_last() =~= s.subrange(k, n - 1));
        assert(s.subrange(k, n as int).last() == s.last());
        assert(be_value(s.subrange(k, n as int)) == be_value(s.subrange(k, n - 1)) * 256
            + s.last());
        assert(be_value(s) == be_value(s.drop_last()) * 256 + s.last());
        assert(crate::wire::pow256((n - k) as nat) == 256 * crate::wire::pow256(
            (n - 1 - k) as nat,
        ));
        assert(be_value(s) == (be_value(s.subrange(0, k)) * crate::wire::pow256(
            (n - 1 - k) as nat,
        ) + be_value(s.subrange(k, n - 1))) * 256 + s.last()) by (nonlinear_arith)
            requires
                be_value(s) == be_value(s.drop_last()) * 256 + s.last(),
                be_value(s.drop_last()) == be_value(s.subrange(0, k)) * crate::wire::pow256(
                    (n - 1 - k) as nat,
                ) + be_value(s.subrange(k, n - 1)),
        ;
        assert(be_value(s) == be_value(s.subrange(0, k)) * (256 * crate::wire::pow256(
            (n - 1 - k) as nat,
        )) + (be_value(s.subrange(k, n - 1)) * 256 + s.last())) by (nonlinear_arith)
            requires
                be_value(s) == (be_value(s.subrange(0, k)) * crate::wire::pow256(
                    (n - 1 - k) as nat,
                ) + be_value(s.subrange(k, n - 1))) * 256 + s.last(),
        ;
    }
}

} // verus!
