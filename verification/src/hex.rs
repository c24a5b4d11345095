//! Hex digits and addresses: the glyph of a nibble, the value of a hex-digit
//! key, the high/low nibble of a byte, nibble replacement, and the 8-digit
//! zero-padded uppercase address of a line offset.

use vstd::prelude::*;

verus! {

/// The uppercase glyph of one hex digit value (values 16 and above are
/// mapped like 15; callers only pass values below 16).
pub open spec fn spec_hex_char(d: u8) -> char {
    if d == 0 {
        '0'
    } else if d == 1 {
        '1'
    } else if d == 2 {
        '2'
    } else if d == 3 {
        '3'
    } else if d == 4 {
        '4'
    } else if d == 5 {
        '5'
    } else if d == 6 {
        '6'
    } else if d == 7 {
        '7'
    } else if d == 8 {
        '8'
    } else if d == 9 {
        '9'
    } else if d == 10 {
        'A'
    } else if d == 11 {
        'B'
    } else if d == 12 {
        'C'
    } else if d == 13 {
        'D'
    } else if d == 14 {
        'E'
    } else {
        'F'
    }
}

/// The uppercase glyph of one hex digit value.
pub fn hex_char_of(d: u8) -> (c: char)
    requires
        d < 16,
    ensures
        c == spec_hex_char(d),
{
    match d {
        0 => '0',
        1 => '1',
        2 => '2',
        3 => '3',
        4 => '4',
        5 => '5',
        6 => '6',
        7 => '7',
        8 => '8',
        9 => '9',
        10 => 'A',
        11 => 'B',
        12 => 'C',
        13 => 'D',
        14 => 'E',
        _ => 'F',
    }
}

/// The value of a hex-digit character, upper or lower case; `None` for any
/// other character.
pub open spec fn spec_hex_digit_value(c: char) -> Option<u8> {
    if c == '0' {
        Some(0u8)
    } else if c == '1' {
        Some(1u8)
    } else if c == '2' {
        Some(2u8)
    } else if c == '3' {
        Some(3u8)
    } else if c == '4' {
        Some(4u8)
    } else if c == '5' {
        Some(5u8)
    } else if c == '6' {
        Some(6u8)
    } else if c == '7' {
        Some(7u8)
    } else if c == '8' {
        Some(8u8)
    } else if c == '9' {
        Some(9u8)
    } else if c == 'a' || c == 'A' {
        Some(10u8)
    } else if c == 'b' || c == 'B' {
        Some(11u8)
    } else if c == 'c' || c == 'C' {
        Some(12u8)
    } else if c == 'd' || c == 'D' {
        Some(13u8)
    } else if c == 'e' || c == 'E' {
        Some(14u8)
    } else if c == 'f' || c == 'F' {
        Some(15u8)
    } else {
        None
    }
}

/// Decodes a hex-digit key press; the result, when present, is below 16.
pub fn hex_digit_value(c: char) -> (r: Option<u8>)
    ensures
        r == spec_hex_digit_value(c),
        r is Some ==> r->0 < 16,
{
    match c {
        '0' => Some(0),
        '1' => Some(1),
        '2' => Some(2),
        '3' => Some(3),
        '4' => Some(4),
        '5' => Some(5),
        '6' => Some(6),
        '7' => Some(7),
        '8' => Some(8),
        '9' => Some(9),
        'a' | 'A' => Some(10),
        'b' | 'B' => Some(11),
        'c' | 'C' => Some(12),
        'd' | 'D' => Some(13),
        'e' | 'E' => Some(14),
        'f' | 'F' => Some(15),
        _ => None,
    }
}

/// The most significant four bits of a byte, as a value below 16.
pub open spec fn spec_high_nibble(b: u8) -> u8 {
    b >> 4
}

/// The least significant four bits of a byte.
pub open spec fn spec_low_nibble(b: u8) -> u8 {
    b & 0x0f
}

/// The byte with its high nibble replaced by `d` and its low nibble kept.
pub open spec fn spec_set_high_nibble(b: u8, d: u8) -> u8 {
    (d << 4) | (b & 0x0f)
}

/// The byte with its low nibble replaced by `d` and its high nibble kept.
pub open spec fn spec_set_low_nibble(b: u8, d: u8) -> u8 {
    (b & 0xf0) | (d & 0x0f)
}

/// The most significant four bits of a byte.
pub fn high_nibble(b: u8) -> (d: u8)
    ensures
        d == spec_high_nibble(b),
        d < 16,
{
    proof {
        assert(b >> 4 < 16) by (bit_vector);
    }
    b >> 4
}

/// The least significant four bits of a byte.
pub fn low_nibble(b: u8) -> (d: u8)
    ensures
        d == spec_low_nibble(b),
        d < 16,
{
    proof {
        assert(b & 0x0f < 16) by (bit_vector);
    }
    b & 0x0f
}

/// Replaces the high nibble of `b` with `d`, keeping the low nibble.
pub fn set_high_nibble(b: u8, d: u8) -> (r: u8)
    requires
        d < 16,
    ensures
        r == spec_set_high_nibble(b, d),
{
    (d << 4) | (b & 0x0f)
}

/// Replaces the low nibble of `b` with `d`, keeping the high nibble.
pub fn set_low_nibble(b: u8, d: u8) -> (r: u8)
    ensures
        r == spec_set_low_nibble(b, d),
{
    (b & 0xf0) | (d & 0x0f)
}

/// Writing the same digit to the same nibble twice leaves the byte exactly
/// as one write does.
pub proof fn lemma_write_nibble_idempotent(b: u8, d: u8)
    ensures
        spec_set_high_nibble(spec_set_high_nibble(b, d), d) == spec_set_high_nibble(b, d),
        spec_set_low_nibble(spec_set_low_nibble(b, d), d) == spec_set_low_nibble(b, d),
{
    assert(((d << 4) | (((d << 4) | (b & 0x0f)) & 0x0f)) == ((d << 4) | (b & 0x0f)))
        by (bit_vector);
    assert(((((b & 0xf0) | (d & 0x0f)) & 0xf0) | (d & 0x0f)) == ((b & 0xf0) | (d & 0x0f)))
        by (bit_vector);
}

/// A nibble write changes only its own nibble: the written nibble becomes
/// `d` and the other nibble of the byte is kept.
pub proof fn lemma_write_nibble_preserves_other(b: u8, d: u8)
    requires
        d < 16,
    ensures
        spec_high_nibble(spec_set_high_nibble(b, d)) == d,
        spec_low_nibble(spec_set_high_nibble(b, d)) == spec_low_nibble(b),
        spec_high_nibble(spec_set_low_nibble(b, d)) == spec_high_nibble(b),
        spec_low_nibble(spec_set_low_nibble(b, d)) == d,
{
    assert((((d << 4) | (b & 0x0f)) >> 4) == d) by (bit_vector)
        requires
            d < 16,
    ;
    assert((((d << 4) | (b & 0x0f)) & 0x0f) == (b & 0x0f)) by (bit_vector);
    assert((((b & 0xf0) | (d & 0x0f)) >> 4) == (b >> 4)) by (bit_vector);
    assert((((b & 0xf0) | (d & 0x0f)) & 0x0f) == d) by (bit_vector)
        requires
            d < 16,
    ;
}

/// Sixteen to the power `k`.
pub open spec fn pow16(k: nat) -> nat
    decreases k,
{
    if k == 0 {
        1
    } else {
        16 * pow16((k - 1) as nat)
    }
}

/// Digit `i` (counted from the left, 0 to 7) of the 8-digit base-16
/// representation of `off`.
pub open spec fn spec_address_digit(off: nat, i: int) -> u8 {
    (((off / pow16((7 - i) as nat)) % 16) as u8)
}

/// The address of a line offset: eight hex digits, zero padded, uppercase.
pub open spec fn spec_address_chars(off: nat) -> Seq<char> {
    Seq::new(8, |i: int| spec_hex_char(spec_address_digit(off, i)))
}

/// Appends the glyph of one hex digit value to a string.
fn push_hex_char(s: &mut String, d: u8)
    requires
        d < 16,
    ensures
        final(s)@ == old(s)@.push(spec_hex_char(d)),
{
    let c = hex_char_of(d);
    match c {
        '0' => {
            s.append("0");
            proof {
                reveal_strlit("0");
                assert(s@ =~= old(s)@.push('0'));
            }
        },
        '1' => {
            s.append("1");
            proof {
                reveal_strlit("1");
                assert(s@ =~= old(s)@.push('1'));
            }
        },
        '2' => {
            s.append("2");
            proof {
                reveal_strlit("2");
                assert(s@ =~= old(s)@.push('2'));
            }
        },
        '3' => {
            s.append("3");
            proof {
                reveal_strlit("3");
                assert(s@ =~= old(s)@.push('3'));
            }
        },
        '4' => {
            s.append("4");
            proof {
                reveal_strlit("4");
                assert(s@ =~= old(s)@.push('4'));
            }
        },
        '5' => {
            s.append("5");
            proof {
                reveal_strlit("5");
                assert(s@ =~= old(s)@.push('5'));
            }
        },
        '6' => {
            s.append("6");
            proof {
                reveal_strlit("6");
                assert(s@ =~= old(s)@.push('6'));
            }
        },
        '7' => {
            s.append("7");
            proof {
                reveal_strlit("7");
                assert(s@ =~= old(s)@.push('7'));
            }
        },
        '8' => {
            s.append("8");
            proof {
                reveal_strlit("8");
                assert(s@ =~= old(s)@.push('8'));
            }
        },
        '9' => {
            s.append("9");
            proof {
                reveal_strlit("9");
                assert(s@ =~= old(s)@.push('9'));
            }
        },
        'A' => {
            s.append("A");
            proof {
                reveal_strlit("A");
                assert(s@ =~= old(s)@.push('A'));
            }
        },
        'B' => {
            s.append("B");
            proof {
                reveal_strlit("B");
                assert(s@ =~= old(s)@.push('B'));
            }
        },
        'C' => {
            s.append("C");
            proof {
                reveal_strlit("C");
                assert(s@ =~= old(s)@.push('C'));
            }
        },
        'D' => {
            s.append("D");
            proof {
                reveal_strlit("D");
                assert(s@ =~= old(s)@.push('D'));
            }
        },
        'E' => {
            s.append("E");
            proof {
                reveal_strlit("E");
                assert(s@ =~= old(s)@.push('E'));
            }
        },
        _ => {
            s.append("F");
            proof {
                reveal_strlit("F");
                assert(s@ =~= old(s)@.push('F'));
            }
        },
    }
}

/// Renders a line offset as its address: eight hex digits, zero padded,
/// uppercase.
pub fn address_string(off: usize) -> (s: String)
    requires
        off < 0x1_0000_0000,
    ensures
        s@ == spec_address_chars(off as nat),
{
    proof {
        assert(pow16(0) == 1);
        assert(pow16(1) == 16);
        assert(pow16(2) == 0x100);
        assert(pow16(3) == 0x1000);
        assert(pow16(4) == 0x1_0000);
        assert(pow16(5) == 0x10_0000);
        assert(pow16(6) == 0x100_0000);
        assert(pow16(7) == 0x1000_0000);
    }
    let d0 = ((off / 0x1000_0000) % 16) as u8;
    let d1 = ((off / 0x100_0000) % 16) as u8;
    let d2 = ((off / 0x10_0000) % 16) as u8;
    let d3 = ((off / 0x1_0000) % 16) as u8;
    let d4 = ((off / 0x1000) % 16) as u8;
    let d5 = ((off / 0x100) % 16) as u8;
    let d6 = ((off / 16) % 16) as u8;
    let d7 = (off % 16) as u8;
    let mut s = String::new();
    push_hex_char(&mut s, d0);
    push_hex_char(&mut s, d1);
    push_hex_char(&mut s, d2);
    push_hex_char(&mut s, d3);
    push_hex_char(&mut s, d4);
    push_hex_char(&mut s, d5);
    push_hex_char(&mut s, d6);
    push_hex_char(&mut s, d7);
    proof {
        assert(d0 == spec_address_digit(off as nat, 0));
        assert(d1 == spec_address_digit(off as nat, 1));
        assert(d2 == spec_address_digit(off as nat, 2));
        assert(d3 == spec_address_digit(off as nat, 3));
        assert(d4 == spec_address_digit(off as nat, 4));
        assert(d5 == spec_address_digit(off as nat, 5));
        assert(d6 == spec_address_digit(off as nat, 6));
        assert(off as nat / 1 == off as nat);
        assert(d7 == spec_address_digit(off as nat, 7));
        assert(s@ =~= spec_address_chars(off as nat));
    }
    s
}

} // verus!
