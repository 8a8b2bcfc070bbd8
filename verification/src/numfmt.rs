//! Verified textual rendering of unsigned integers in decimal and in
//! hexadecimal, used by the error taxonomy and the identifier types for
//! their fixed display templates.

use vstd::prelude::*;

verus! {

use vstd::string::StringExecFns;

/// The character for a single digit value below 16, with letters in lower case.
pub open spec fn digit_char_lower(d: nat) -> char
    recommends
        d < 16,
{
    if d < 10 {
        ((d + ('0' as nat)) as u32) as char
    } else {
        ((d - 10 + ('a' as nat)) as u32) as char
    }
}

/// The character for a single digit value below 16, with letters in upper case.
pub open spec fn digit_char_upper(d: nat) -> char
    recommends
        d < 16,
{
    if d < 10 {
        ((d + ('0' as nat)) as u32) as char
    } else {
        ((d - 10 + ('A' as nat)) as u32) as char
    }
}

/// The decimal rendering of `n`, without leading zeros (a single `'0'` for 0).
pub open spec fn dec_digits(n: nat) -> Seq<char>
    decreases n,
{
    if n < 10 {
        seq![digit_char_lower(n)]
    } else {
        dec_digits(n / 10) + seq![digit_char_lower(n % 10)]
    }
}

/// The lower-case hexadecimal rendering of `n` in exactly `width` digits,
/// including leading zeros.
pub open spec fn hex_digits_lower(n: nat, width: nat) -> Seq<char>
    decreases width,
{
    if width == 0 {
        seq![]
    } else {
        hex_digits_lower(n / 16, (width - 1) as nat) + seq![digit_char_lower(n % 16)]
    }
}

/// The upper-case hexadecimal rendering of `n` in exactly `width` digits,
/// including leading zeros.
pub open spec fn hex_digits_upper(n: nat, width: nat) -> Seq<char>
    decreases width,
{
    if width == 0 {
        seq![]
    } else {
        hex_digits_upper(n / 16, (width - 1) as nat) + seq![digit_char_upper(n % 16)]
    }
}

/// A one-character string slice for the digit value `d`, lower case.
fn digit_str_lower(d: u8) -> (r: &'static str)
    requires
        d < 16,
    ensures
        r@ == seq![digit_char_lower(d as nat)],
{
    proof {
        reveal_strlit("0");
        reveal_strlit("1");
        reveal_strlit("2");
        reveal_strlit("3");
        reveal_strlit("4");
        reveal_strlit("5");
        reveal_strlit("6");
        reveal_strlit("7");
        reveal_strlit("8");
        reveal_strlit("9");
        reveal_strlit("a");
        reveal_strlit("b");
        reveal_strlit("c");
        reveal_strlit("d");
        reveal_strlit("e");
        reveal_strlit("f");
    }
    match d {
        0 => "0",
        1 => "1",
        2 => "2",
        3 => "3",
        4 => "4",
        5 => "5",
        6 => "6",
        7 => "7",
        8 => "8",
        9 => "9",
        10 => "a",
        11 => "b",
        12 => "c",
        13 => "d",
        14 => "e",
        _ => "f",
    }
}

/// A one-character string slice for the digit value `d`, upper case.
fn digit_str_upper(d: u8) -> (r: &'static str)
    requires
        d < 16,
    ensures
        r@ == seq![digit_char_upper(d as nat)],
{
    proof {
        reveal_strlit("0");
        reveal_strlit("1");
        reveal_strlit("2");
        reveal_strlit("3");
        reveal_strlit("4");
        reveal_strlit("5");
        reveal_strlit("6");
        reveal_strlit("7");
        reveal_strlit("8");
        reveal_strlit("9");
        reveal_strlit("A");
        reveal_strlit("B");
        reveal_strlit("C");
        reveal_strlit("D");
        reveal_strlit("E");
        reveal_strlit("F");
    }
    match d {
        0 => "0",
        1 => "1",
        2 => "2",
        3 => "3",
        4 => "4",
        5 => "5",
        6 => "6",
        7 => "7",
        8 => "8",
        9 => "9",
        10 => "A",
        11 => "B",
        12 => "C",
        13 => "D",
        14 => "E",
        _ => "F",
    }
}

/// A fixed-width hexadecimal rendering has exactly its width in characters.
pub proof fn lemma_hex_lower_len(n: nat, width: nat)
    ensures
        hex_digits_lower(n, width).len() == width,
    decreases width,
{
    if width > 0 {
        lemma_hex_lower_len(n / 16, (width - 1) as nat);
    }
}

/// Every character of a lower-case hexadecimal rendering is a decimal
/// digit or a lower-case letter `a` through `f`.
pub proof fn lemma_hex_lower_chars(n: nat, width: nat)
    ensures
        forall|i: int|
            0 <= i < hex_digits_lower(n, width).len() ==> {
                let c = #[trigger] hex_digits_lower(n, width)[i];
                0x30 <= (c as u32) <= 0x39 || 0x61 <= (c as u32) <= 0x66
            },
    decreases width,
{
    if width > 0 {
        lemma_hex_lower_chars(n / 16, (width - 1) as nat);
        lemma_hex_lower_len(n / 16, (width - 1) as nat);
        let h = hex_digits_lower(n, width);
        let prev = hex_digits_lower(n / 16, (width - 1) as nat);
        assert forall|i: int| 0 <= i < h.len() implies {
            let c = #[trigger] h[i];
            0x30 <= (c as u32) <= 0x39 || 0x61 <= (c as u32) <= 0x66
        } by {
            if i < prev.len() {
                assert(h[i] == prev[i]);
            } else {
                assert(h[i] == digit_char_lower(n % 16));
                let d = n % 16;
                if d == 0 {
                    assert(digit_char_lower(0) as u32 == 0x30);
                } else if d == 1 {
                    assert(digit_char_lower(1) as u32 == 0x31);
                } else if d == 2 {
                    assert(digit_char_lower(2) as u32 == 0x32);
                } else if d == 3 {
                    assert(digit_char_lower(3) as u32 == 0x33);
                } else if d == 4 {
                    assert(digit_char_lower(4) as u32 == 0x34);
                } else if d == 5 {
                    assert(digit_char_lower(5) as u32 == 0x35);
                } else if d == 6 {
                    assert(digit_char_lower(6) as u32 == 0x36);
                } else if d == 7 {
                    assert(digit_char_lower(7) as u32 == 0x37);
                } else if d == 8 {
                    assert(digit_char_lower(8) as u32 == 0x38);
                } else if d == 9 {
                    assert(digit_char_lower(9) as u32 == 0x39);
                } else if d == 10 {
                    assert(digit_char_lower(10) as u32 == 0x61);
                } else if d == 11 {
                    assert(digit_char_lower(11) as u32 == 0x62);
                } else if d == 12 {
                    assert(digit_char_lower(12) as u32 == 0x63);
                } else if d == 13 {
                    assert(digit_char_lower(13) as u32 == 0x64);
                } else if d == 14 {
                    assert(digit_char_lower(14) as u32 == 0x65);
                } else {
                    assert(digit_char_lower(15) as u32 == 0x66);
                }
            }
        }
    }
}

/// The lower-case hexadecimal rendering of a 128-bit value in exactly
/// `width` digits, including leading zeros.
pub fn u128_hex_lower(n: u128, width: u8) -> (r: String)
    ensures
        r@ == hex_digits_lower(n as nat, width as nat),
    decreases width,
{
    if width == 0 {
        let s = String::new();
        assert(s@ =~= hex_digits_lower(n as nat, 0));
        s
    } else {
        let mut s = u128_hex_lower(n / 16, width - 1);
        s.append(digit_str_lower((n % 16) as u8));
        assert(s@ =~= hex_digits_lower(n as nat, width as nat));
        s
    }
}

/// The upper-case hexadecimal rendering of a 32-bit value in exactly
/// `width` digits, including leading zeros.
pub fn u32_hex_upper(n: u32, width: u8) -> (r: String)
    ensures
        r@ == hex_digits_upper(n as nat, width as nat),
    decreases width,
{
    if width == 0 {
        let s = String::new();
        assert(s@ =~= hex_digits_upper(n as nat, 0));
        s
    } else {
        let mut s = u32_hex_upper(n / 16, width - 1);
        s.append(digit_str_upper((n % 16) as u8));
        assert(s@ =~= hex_digits_upper(n as nat, width as nat));
        s
    }
}

/// The decimal rendering of a 64-bit value, without leading zeros.
pub fn u64_dec_string(n: u64) -> (r: String)
    ensures
        r@ == dec_digits(n as nat),
    decreases n,
{
    if n < 10 {
        let mut s = String::new();
        s.append(digit_str_lower(n as u8));
        assert(s@ =~= dec_digits(n as nat));
        s
    } else {
        let mut s = u64_dec_string(n / 10);
        s.append(digit_str_lower((n % 10) as u8));
        assert(s@ =~= dec_digits(n as nat));
        s
    }
}

} // verus!
