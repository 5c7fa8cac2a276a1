//! Rendering of numbers as text, used by error messages and identifiers.

use vstd::prelude::*;

verus! {

/// The decimal digit character for a value below ten.
pub open spec fn dec_digit_char(d: nat) -> char {
    if d == 0 {
        '0'
    } else if d == 1 {
        '1'
    } else if d == 2 {
        '2'
    } else if d == 3 {
        '3'
    } else if d == 4 {
        '4'
    } else if d == 5 {
        '5'
    } else if d == 6 {
        '6'
    } else if d == 7 {
        '7'
    } else if d == 8 {
        '8'
    } else {
        '9'
    }
}

/// The decimal rendering of a natural number, most significant digit first.
pub open spec fn dec_chars(x: nat) -> Seq<char>
    decreases x,
{
    if x < 10 {
        seq![dec_digit_char(x)]
    } else {
        dec_chars(x / 10).push(dec_digit_char(x % 10))
    }
}

/// The lowercase hexadecimal digit character for a value below sixteen.
pub open spec fn hex_digit_char(d: nat) -> char {
    if d == 0 {
        '0'
    } else if d == 1 {
        '1'
    } else if d == 2 {
        '2'
    } else if d == 3 {
        '3'
    } else if d == 4 {
        '4'
    } else if d == 5 {
        '5'
    } else if d == 6 {
        '6'
    } else if d == 7 {
        '7'
    } else if d == 8 {
        '8'
    } else if d == 9 {
        '9'
    } else if d == 10 {
        'a'
    } else if d == 11 {
        'b'
    } else if d == 12 {
        'c'
    } else if d == 13 {
        'd'
    } else if d == 14 {
        'e'
    } else {
        'f'
    }
}

/// The lowercase hexadecimal rendering of a natural number, no leading zeros.
pub open spec fn hex_chars(x: nat) -> Seq<char>
    decreases x,
{
    if x < 16 {
        seq![hex_digit_char(x)]
    } else {
        hex_chars(x / 16).push(hex_digit_char(x % 16))
    }
}

pub fn dec_digit_str(d: u64) -> (r: &'static str)
    requires
        d < 10,
    ensures
        r@ == seq![dec_digit_char(d as nat)],
{
    proof {
        reveal_strlit("0");
        reveal_strlit("1");
        reveal_strlit("2");
        reveal_strlit("3");
        reveal_strlit("4");
        reveal_strlit("5");
        reveal_strlit("6");
        reveal_strlit("7");
        reveal_strlit("8");
        reveal_strlit("9");
    }
    let r = match d {
        0 => "0",
        1 => "1",
        2 => "2",
        3 => "3",
        4 => "4",
        5 => "5",
        6 => "6",
        7 => "7",
        8 => "8",
        _ => "9",
    };
    proof {
        assert(r@ =~= seq![dec_digit_char(d as nat)]);
    }
    r
}

pub fn hex_digit_str(d: u64) -> (r: &'static str)
    requires
        d < 16,
    ensures
        r@ == seq![hex_digit_char(d as nat)],
{
    proof {
        reveal_strlit("0");
        reveal_strlit("1");
        reveal_strlit("2");
        reveal_strlit("3");
        reveal_strlit("4");
        reveal_strlit("5");
        reveal_strlit("6");
        reveal_strlit("7");
        reveal_strlit("8");
        reveal_strlit("9");
        reveal_strlit("a");
        reveal_strlit("b");
        reveal_strlit("c");
        reveal_strlit("d");
        reveal_strlit("e");
        reveal_strlit("f");
    }
    let r = match d {
        0 => "0",
        1 => "1",
        2 => "2",
        3 => "3",
        4 => "4",
        5 => "5",
        6 => "6",
        7 => "7",
        8 => "8",
        9 => "9",
        10 => "a",
        11 => "b",
        12 => "c",
        13 => "d",
        14 => "e",
        _ => "f",
    };
    proof {
        assert(r@ =~= seq![hex_digit_char(d as nat)]);
    }
    r
}

/// The decimal rendering of a 64-bit value.
pub fn u64_to_string(x: u64) -> (r: String)
    ensures
        r@ == dec_chars(x as nat),
    decreases x,
{
    if x < 10 {
        String::from_str(dec_digit_str(x))
    } else {
        let mut s = u64_to_string(x / 10);
        s.append(dec_digit_str(x % 10));
        proof {
            assert(s@ =~= dec_chars(x as nat));
        }
        s
    }
}

/// The decimal rendering of a 128-bit value.
pub fn u128_to_string(x: u128) -> (r: String)
    ensures
        r@ == dec_chars(x as nat),
    decreases x,
{
    if x < 10 {
        String::from_str(dec_digit_str((x % 10) as u64))
    } else {
        let mut s = u128_to_string(x / 10);
        s.append(dec_digit_str((x % 10) as u64));
        proof {
            assert(s@ =~= dec_chars(x as nat));
        }
        s
    }
}

/// The fixed-width lowercase hexadecimal rendering of a value.
pub open spec fn hex_fixed(x: nat, width: nat) -> Seq<char>
    decreases width,
{
    if width == 0 {
        seq![]
    } else {
        hex_fixed(x / 16, (width - 1) as nat).push(hex_digit_char(x % 16))
    }
}

/// Renders a 128-bit value as exactly `width` lowercase hex digits.
pub fn u128_to_hex_fixed(x: u128, width: usize) -> (r: String)
    ensures
        r@ == hex_fixed(x as nat, width as nat),
    decreases width,
{
    if width == 0 {
        let r = String::new();
        proof {
            assert(r@ =~= hex_fixed(x as nat, 0));
        }
        r
    } else {
        let mut s = u128_to_hex_fixed(x / 16, width - 1);
        s.append(hex_digit_str((x % 16) as u64));
        proof {
            assert(s@ =~= hex_fixed(x as nat, width as nat));
        }
        s
    }
}

/// The lowercase hexadecimal rendering of a 64-bit value, no leading zeros.
pub fn u64_to_hex_string(x: u64) -> (r: String)
    ensures
        r@ == hex_chars(x as nat),
    decreases x,
{
    if x < 16 {
        String::from_str(hex_digit_str(x))
    } else {
        let mut s = u64_to_hex_string(x / 16);
        s.append(hex_digit_str(x % 16));
        proof {
            assert(s@ =~= hex_chars(x as nat));
        }
        s
    }
}


/// Renders one uppercase ASCII letter as a one-character string.
pub fn ascii_char_str(b: u8) -> (r: &'static str)
    requires
        65 <= b <= 90,
    ensures
        r@ == seq![b as char],
{
    proof {
        reveal_strlit("A");
        reveal_strlit("B");
        reveal_strlit("C");
        reveal_strlit("D");
        reveal_strlit("E");
        reveal_strlit("F");
        reveal_strlit("G");
        reveal_strlit("H");
        reveal_strlit("I");
        reveal_strlit("J");
        reveal_strlit("K");
        reveal_strlit("L");
        reveal_strlit("M");
        reveal_strlit("N");
        reveal_strlit("O");
        reveal_strlit("P");
        reveal_strlit("Q");
        reveal_strlit("R");
        reveal_strlit("S");
        reveal_strlit("T");
        reveal_strlit("U");
        reveal_strlit("V");
        reveal_strlit("W");
        reveal_strlit("X");
        reveal_strlit("Y");
        reveal_strlit("Z");
    }
    let r = match b {
        65 => "A",
        66 => "B",
        67 => "C",
        68 => "D",
        69 => "E",
        70 => "F",
        71 => "G",
        72 => "H",
        73 => "I",
        74 => "J",
        75 => "K",
        76 => "L",
        77 => "M",
        78 => "N",
        79 => "O",
        80 => "P",
        81 => "Q",
        82 => "R",
        83 => "S",
        84 => "T",
        85 => "U",
        86 => "V",
        87 => "W",
        88 => "X",
        89 => "Y",
        _ => "Z",
    };
    proof {
        assert(r@ =~= seq![b as char]);
    }
    r
}

} // verus!
