//! ISO alpha-2 country codes and the 32-bit packed location record: two
//! letters and a fixed-point latitude/longitude pair.

use vstd::prelude::*;
use vstd::string::StringSliceAdditionalSpecFns;

verus! {

/// An ISO alpha-2 country code: two uppercase ASCII letters.
#[derive(Debug, Clone, Copy, PartialEq, Eq, Hash, Structural)]
pub struct CountryCode {
    a: u8,
    b: u8,
}

/// True of a byte that may appear in a country code.
pub open spec fn spec_country_byte(c: u8) -> bool {
    65 <= c <= 90
}

/// Accepts exactly the uppercase ASCII letters.
pub fn validate_u8_char(c: u8) -> (r: Result<u8, String>)
    ensures
        r is Ok <==> spec_country_byte(c),
        r matches Ok(v) ==> v == c,
{
    if c >= 65 && c <= 90 {
        Ok(c)
    } else {
        let mut m = String::from_str("Invalid ISO alpha-2 character: ");
        m.append(crate::text::u64_to_string(c as u64).as_str());
        Err(m)
    }
}

impl CountryCode {
    /// The two letters of the code.
    pub closed spec fn spec_code(self) -> (u8, u8) {
        (self.a, self.b)
    }

    pub open spec fn wf(self) -> bool {
        spec_country_byte(self.spec_code().0) && spec_country_byte(self.spec_code().1)
    }

    /// Accepts exactly a pair of uppercase ASCII letters.
    pub fn new(a: u8, b: u8) -> (r: Result<CountryCode, String>)
        ensures
            r is Ok <==> spec_country_byte(a) && spec_country_byte(b),
            r matches Ok(c) ==> c.spec_code() == (a, b) && c.wf(),
    {
        let a = validate_u8_char(a)?;
        let b = validate_u8_char(b)?;
        Ok(CountryCode { a, b })
    }

    /// The two letters of the code.
    pub fn code(&self) -> (r: [u8; 2])
        ensures
            r@ == seq![self.spec_code().0, self.spec_code().1],
    {
        let r = [self.a, self.b];
        proof {
            assert(r@ =~= seq![self.a, self.b]);
        }
        r
    }

    /// Two codes are equal exactly when their letters are.
    pub proof fn lemma_code_eq(a: CountryCode, b: CountryCode)
        ensures
            (a == b) <==> (a.spec_code() == b.spec_code()),
    {
    }

    /// Parses a two-letter string of uppercase ASCII letters; refused
    /// exactly when the string is not two uppercase ASCII letters.
    pub fn from_str(s: &str) -> (r: Result<CountryCode, String>)
        ensures
            r is Ok <==> (s.spec_bytes().len() == 2 && spec_country_byte(s.spec_bytes()[0])
                && spec_country_byte(s.spec_bytes()[1])),
            r matches Ok(c) ==> c.wf() && c.spec_code() == (
                s.spec_bytes()[0],
                s.spec_bytes()[1],
            ),
    {
        let bytes = s.as_bytes();
        if bytes.len() != 2 {
            return Err(String::from_str("ISO alpha-2 country code must be 2 digits"));
        }
        let a = *vstd::slice::slice_index_get(bytes, 0);
        let b = *vstd::slice::slice_index_get(bytes, 1);
        let a = validate_u8_char(a)?;
        let b = validate_u8_char(b)?;
        Ok(CountryCode { a, b })
    }
}

/// True when the letter fields of a packed 32-bit record land on letters.
pub open spec fn spec_packed_ok(x: u32) -> bool {
    (x / 32) % 32 < 26 && x % 32 < 26
}

/// A location record: a country code and a fixed-point latitude and
/// longitude, each eleven bits. A fixed-point value stands for
/// `(angle + 180) / 360 * 2048`, truncated.
#[derive(Debug, Clone, Copy, PartialEq, Eq, Structural)]
pub struct IpInfo {
    pub country: CountryCode,
    pub lat_fixed: u32,
    pub long_fixed: u32,
}

impl IpInfo {
    pub open spec fn wf(self) -> bool {
        &&& self.country.wf()
        &&& self.lat_fixed < 2048
        &&& self.long_fixed < 2048
    }

    /// The 32-bit packing: latitude in the top eleven bits, longitude in
    /// the next eleven, then each letter less `'A'` in five bits.
    pub open spec fn spec_packed(self) -> int {
        self.lat_fixed * 0x200000 + self.long_fixed * 0x400 + (self.spec_code_0() - 65) * 32 + (
        self.spec_code_1() - 65)
    }

    pub open spec fn spec_code_0(self) -> u8 {
        self.country.spec_code().0
    }

    pub open spec fn spec_code_1(self) -> u8 {
        self.country.spec_code().1
    }

    /// Packs the record into 32 bits.
    pub fn to_u32(&self) -> (r: u32)
        requires
            self.wf(),
        ensures
            r == self.spec_packed(),
    {
        let code = self.country.code();
        let c0 = code[0];
        let c1 = code[1];
        self.lat_fixed * 0x200000 + self.long_fixed * 0x400 + ((c0 - 65) as u32) * 32 + ((c1 - 65)
            as u32)
    }

    /// Unpacks a 32-bit record; refused exactly when the letter fields do
    /// not land on letters.
    pub fn from_u32(x: u32) -> (r: Result<IpInfo, String>)
        ensures
            r is Ok <==> spec_packed_ok(x),
            r matches Ok(info) ==> info.wf() && info.spec_packed() == x,
    {
        let lat_fixed = x / 0x200000;
        let long_fixed = (x / 0x400) % 0x800;
        let c0 = ((x / 32) % 32) as u8 + 65;
        let c1 = (x % 32) as u8 + 65;
        let country = CountryCode::new(c0, c1)?;
        let info = IpInfo { country, lat_fixed, long_fixed };
        proof {
            lemma_pack_unpack(x);
        }
        Ok(info)
    }
}

proof fn lemma_pack_unpack(x: u32)
    ensures
        (x / 0x200000) * 0x200000 + ((x / 0x400) % 0x800) * 0x400 + ((x / 32) % 32) * 32 + (
        x % 32) == x,
        x / 0x200000 < 2048,
{
    assert((x / 0x200000) * 0x200000 + ((x / 0x400) % 0x800) * 0x400 + ((x / 32) % 32) * 32 + (
    x % 32) == x) by (bit_vector);
    assert(x / 0x200000 < 2048) by (bit_vector);
}

} // verus!
