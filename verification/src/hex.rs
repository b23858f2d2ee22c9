//! Byte strings as hexadecimal text.

use vstd::prelude::*;
use vstd::string::StringExecFns;
use vstd::utf8::{encode_utf8, is_char_boundary};

verus! {

/// The lower-case digit of a number below 16.
pub open spec fn hex_digit(n: int) -> char {
    if n < 10 {
        (0x30 + n) as char
    } else {
        (0x57 + n) as char
    }
}

/// Two digits for each byte, the upper half first.
pub open spec fn hex_text(bytes: Seq<u8>) -> Seq<char> {
    Seq::new(
        2 * bytes.len(),
        |i: int|
            if i % 2 == 0 {
                hex_digit(bytes[i / 2] as int / 16)
            } else {
                hex_digit(bytes[i / 2] as int % 16)
            },
    )
}

/// The value of a digit in either case.
pub open spec fn digit_value(c: u8) -> Option<u8> {
    if 0x30 <= c <= 0x39 {
        Some((c - 0x30) as u8)
    } else if 0x41 <= c <= 0x46 {
        Some((c - 0x37) as u8)
    } else if 0x61 <= c <= 0x66 {
        Some((c - 0x57) as u8)
    } else {
        None
    }
}

/// The number that two characters write in base 16. A leading plus sign is
/// allowed, and what is not a number counts as 0.
pub open spec fn byte_value(first: u8, second: u8) -> u8 {
    match (digit_value(first), digit_value(second)) {
        (Some(high), Some(low)) => (16 * high + low) as u8,
        (None, Some(low)) => if first == 0x2b {
            low
        } else {
            0
        },
        _ => 0,
    }
}

/// What a text reads as, two characters at a time.
pub open spec fn read_text(text: Seq<u8>) -> Seq<u8> {
    Seq::new(text.len() / 2, |i: int| byte_value(text[2 * i], text[2 * i + 1]))
}

/// The text can be cut into pieces of two bytes.
pub open spec fn pairable(text: Seq<u8>) -> bool {
    &&& text.len() % 2 == 0
    &&& forall|i: int| 0 <= i <= text.len() / 2 ==> #[trigger] is_char_boundary(text, 2 * i)
}

/// The digit as text.
fn digit_text(n: u8) -> (text: &'static str)
    requires
        n < 16,
    ensures
        text@ == seq![hex_digit(n as int)],
{
    proof {
        reveal_strlit("0");
        reveal_strlit("1");
        reveal_strlit("2");
        reveal_strlit("3");
        reveal_strlit("4");
        reveal_strlit("5");
        reveal_strlit("6");
        reveal_strlit("7");
        reveal_strlit("8");
        reveal_strlit("9");
        reveal_strlit("a");
        reveal_strlit("b");
        reveal_strlit("c");
        reveal_strlit("d");
        reveal_strlit("e");
        reveal_strlit("f");
    }
    match n {
        0 => "0",
        1 => "1",
        2 => "2",
        3 => "3",
        4 => "4",
        5 => "5",
        6 => "6",
        7 => "7",
        8 => "8",
        9 => "9",
        10 => "a",
        11 => "b",
        12 => "c",
        13 => "d",
        14 => "e",
        _ => "f",
    }
}

/// Write `bytes` as two lower-case digits each.
pub fn to_hex(bytes: &[u8]) -> (text: String)
    ensures
        text@ == hex_text(bytes@),
{
    let mut text = String::new();
    let mut i: usize = 0;
    while i < bytes.len()
        invariant
            i <= bytes.len(),
            text@ == hex_text(bytes@.take(i as int)),
        decreases bytes.len() - i,
    {
        let ghost before = text@;
        text.append(digit_text(bytes[i] / 16));
        text.append(digit_text(bytes[i] % 16));
        assert(text@ =~= hex_text(bytes@.take(i + 1))) by {
            let longer = hex_text(bytes@.take(i + 1));
            assert forall|j: int| 0 <= j < longer.len() implies text@[j] == longer[j] by {
                if j < before.len() {
                    assert(bytes@.take(i as int)[j / 2] == bytes@.take(i + 1)[j / 2]);
                }
            }
        }
        i += 1;
    }
    assert(bytes@.take(i as int) =~= bytes@);
    text
}

fn digit(c: u8) -> (value: Option<u8>)
    ensures
        value == digit_value(c),
{
    if 0x30 <= c && c <= 0x39 {
        Some(c - 0x30)
    } else if 0x41 <= c && c <= 0x46 {
        Some(c - 0x37)
    } else if 0x61 <= c && c <= 0x66 {
        Some(c - 0x57)
    } else {
        None
    }
}

/// Whether `text` can be cut into pieces of two bytes.
pub fn is_pairable(text: &str) -> (ok: bool)
    ensures
        ok == pairable(encode_utf8(text@)),
{
    let n: usize = text.as_bytes().len();
    if n % 2 != 0 {
        return false;
    }
    let mut i: usize = 0;
    while i < n
        invariant
            i <= n,
            i % 2 == 0,
            n % 2 == 0,
            n == encode_utf8(text@).len(),
            forall|j: int|
                0 <= j < i / 2 ==> #[trigger] is_char_boundary(encode_utf8(text@), 2 * j),
        decreases n - i,
    {
        if !text.is_char_boundary(i) {
            assert(!is_char_boundary(encode_utf8(text@), 2 * (i as int / 2)));
            return false;
        }
        i += 2;
    }
    proof {
        vstd::utf8::encode_utf8_valid_utf8(text@);
        vstd::utf8::is_char_boundary_start_end_of_seq(encode_utf8(text@));
    }
    true
}

/// Read a text of pairs of digits.
pub fn from_hex(text: &str) -> (bytes: Vec<u8>)
    requires
        pairable(encode_utf8(text@)),
    ensures
        bytes@ == read_text(encode_utf8(text@)),
{
    let raw = text.as_bytes();
    let mut bytes: Vec<u8> = Vec::with_capacity(raw.len() / 2);
    let mut i: usize = 0;
    while i < raw.len()
        invariant
            i <= raw.len(),
            i % 2 == 0,
            raw.len() % 2 == 0,
            raw@ == encode_utf8(text@),
            bytes@ == read_text(raw@.take(i as int)),
        decreases raw.len() - i,
    {
        let value: u8 = match (digit(raw[i]), digit(raw[i + 1])) {
            (Some(high), Some(low)) => high * 16 + low,
            (None, Some(low)) => if raw[i] == 0x2b {
                low
            } else {
                0
            },
            _ => 0,
        };
        let ghost before = bytes@;
        bytes.push(value);
        assert(bytes@ =~= read_text(raw@.take(i + 2))) by {
            let longer = read_text(raw@.take(i + 2));
            assert forall|j: int| 0 <= j < longer.len() implies bytes@[j] == longer[j] by {
                if j < before.len() {
                    assert(raw@.take(i as int)[2 * j] == raw@.take(i + 2)[2 * j]);
                    assert(raw@.take(i as int)[2 * j + 1] == raw@.take(i + 2)[2 * j + 1]);
                }
            }
        }
        i += 2;
    }
    assert(raw@.take(i as int) =~= raw@);
    bytes
}

/// What `to_hex` writes can be read, and reads as the bytes written.
pub proof fn hex_round_trip(bytes: Seq<u8>)
    ensures
        pairable(encode_utf8(hex_text(bytes))),
        read_text(encode_utf8(hex_text(bytes))) == bytes,
{
    let text = hex_text(bytes);
    assert(vstd::utf8::is_ascii_chars(text));
    vstd::utf8::is_ascii_chars_encode_utf8(text);
    let raw = encode_utf8(text);
    vstd::utf8::encode_utf8_valid_utf8(text);
    assert forall|i: int| 0 <= i <= raw.len() / 2 implies #[trigger] is_char_boundary(
        raw,
        2 * i,
    ) by {
        vstd::utf8::is_char_boundary_start_end_of_seq(raw);
        if 2 * i < raw.len() {
            vstd::utf8::is_char_boundary_iff_not_is_continuation_byte(raw, 2 * i);
            let c = raw[2 * i];
            assert(c < 0x80 ==> !vstd::utf8::is_continuation_byte(c)) by (bit_vector);
        }
    }
    assert forall|i: int| 0 <= i < bytes.len() implies read_text(raw)[i] == bytes[i] by {
        assert(raw[2 * i] == text[2 * i] as u8);
        assert(raw[2 * i + 1] == text[2 * i + 1] as u8);
    }
    assert(read_text(raw) =~= bytes);
}

/// The digits are those of base 16: written in lower case, read in either case,
/// and no other character is one.
pub proof fn digits_are_of_base_16(n: int, c: u8)
    ensures
        0 <= n < 16 ==> hex_digit(n) == "0123456789abcdef"@[n],
        digit_value(c) matches Some(v) ==> v < 16 && (c == "0123456789abcdef"@[v as int] as u8 || c
            == "0123456789ABCDEF"@[v as int] as u8),
        0 <= n < 16 && (c == "0123456789abcdef"@[n] as u8 || c == "0123456789ABCDEF"@[n] as u8)
            ==> digit_value(c) == Some(n as u8),
{
    reveal_strlit("0123456789abcdef");
    reveal_strlit("0123456789ABCDEF");
}

/// A byte is written as the digit of its upper half and that of its lower half.
pub proof fn bytes_are_two_digits(bytes: Seq<u8>, i: int)
    requires
        0 <= i < bytes.len(),
    ensures
        hex_text(bytes).len() == 2 * bytes.len(),
        hex_text(bytes)[2 * i] == "0123456789abcdef"@[bytes[i] as int / 16],
        hex_text(bytes)[2 * i + 1] == "0123456789abcdef"@[bytes[i] as int % 16],
{
    reveal_strlit("0123456789abcdef");
}

/// Two digits read as the number that they write; a plus sign before a digit
/// adds nothing, and everything else reads as 0.
pub proof fn two_digits_are_a_byte(text: Seq<u8>, i: int)
    requires
        0 <= 2 * i < text.len() - 1,
    ensures
        read_text(text).len() == text.len() / 2,
        match (digit_value(text[2 * i]), digit_value(text[2 * i + 1])) {
            (Some(high), Some(low)) => read_text(text)[i] == 16 * high + low,
            (None, Some(low)) => read_text(text)[i] == (if text[2 * i] == 0x2b {
                low
            } else {
                0
            }),
            _ => read_text(text)[i] == 0,
        },
{
    digits_are_of_base_16(0, text[2 * i]);
    digits_are_of_base_16(0, text[2 * i + 1]);
}

/// A text can be read where it has an even number of bytes and no character
/// lies across the border of two pairs.
pub proof fn pairs_end_at_characters(text: Seq<u8>)
    ensures
        pairable(text) <==> text.len() % 2 == 0 && forall|i: int|
            0 <= i <= text.len() / 2 ==> #[trigger] is_char_boundary(text, 2 * i),
{
}

} // verus!
