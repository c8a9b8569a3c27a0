//! Textual renderings: decimal numbers, hexadecimal byte blocks and
//! NUL-trimmed text.

use vstd::prelude::*;
use vstd::string::*;
use vstd::utf8::{decode_utf8, valid_utf8};

verus! {

/// The text of one decimal digit.
pub open spec fn digit_text(d: nat) -> Seq<char> {
    if d == 0 {
        "0"@
    } else if d == 1 {
        "1"@
    } else if d == 2 {
        "2"@
    } else if d == 3 {
        "3"@
    } else if d == 4 {
        "4"@
    } else if d == 5 {
        "5"@
    } else if d == 6 {
        "6"@
    } else if d == 7 {
        "7"@
    } else if d == 8 {
        "8"@
    } else {
        "9"@
    }
}

/// The digit that a character shows, if it is one of `0` to `9`.
pub open spec fn digit_of(c: char) -> Option<nat> {
    if c == '0' {
        Some(0nat)
    } else if c == '1' {
        Some(1nat)
    } else if c == '2' {
        Some(2nat)
    } else if c == '3' {
        Some(3nat)
    } else if c == '4' {
        Some(4nat)
    } else if c == '5' {
        Some(5nat)
    } else if c == '6' {
        Some(6nat)
    } else if c == '7' {
        Some(7nat)
    } else if c == '8' {
        Some(8nat)
    } else if c == '9' {
        Some(9nat)
    } else {
        None
    }
}

/// The base-10 text of a natural number, without leading zeros.
pub open spec fn decimal(n: nat) -> Seq<char>
    decreases n,
{
    if n < 10 {
        digit_text(n)
    } else {
        decimal(n / 10) + digit_text(n % 10)
    }
}

/// The base-10 text of an integer; a negative one starts with a minus sign.
pub open spec fn signed_decimal(n: int) -> Seq<char> {
    if n < 0 {
        "-"@ + decimal((-n) as nat)
    } else {
        decimal(n as nat)
    }
}

/// The text of one hexadecimal digit, in upper case.
pub open spec fn hex_digit_text(d: nat) -> Seq<char> {
    if d < 10 {
        digit_text(d)
    } else if d == 10 {
        "A"@
    } else if d == 11 {
        "B"@
    } else if d == 12 {
        "C"@
    } else if d == 13 {
        "D"@
    } else if d == 14 {
        "E"@
    } else {
        "F"@
    }
}

/// Two upper-case hexadecimal digits for one byte.
pub open spec fn hex_byte(b: u8) -> Seq<char> {
    hex_digit_text((b / 16) as nat) + hex_digit_text((b % 16) as nat)
}

/// The bytes as two-digit hexadecimal numbers separated by single spaces.
pub open spec fn hex_block(bytes: Seq<u8>) -> Seq<char>
    decreases bytes.len(),
{
    if bytes.len() == 0 {
        Seq::empty()
    } else if bytes.len() == 1 {
        hex_byte(bytes[0])
    } else {
        hex_block(bytes.drop_last()) + " "@ + hex_byte(bytes.last())
    }
}

/// The text without the NUL characters at its end.
pub open spec fn trim_nul(s: Seq<char>) -> Seq<char>
    decreases s.len(),
{
    if s.len() > 0 && s.last() == '\0' {
        trim_nul(s.drop_last())
    } else {
        s
    }
}

/// The characters that lossy UTF-8 decoding gives for bytes that are not
/// UTF-8: valid sequences decode to their characters, invalid ones to
/// U+FFFD.
pub uninterp spec fn utf8_lossy(bytes: Seq<u8>) -> Seq<char>;

/// The text of `bytes`: the text they encode where they are UTF-8, and what
/// lossy decoding makes of them where they are not.
pub open spec fn lossy_decode(bytes: Seq<u8>) -> Seq<char> {
    if valid_utf8(bytes) {
        decode_utf8(bytes)
    } else {
        utf8_lossy(bytes)
    }
}

/// Calls `String::from_utf8_lossy` and takes ownership of what it returns.
/// Bytes that are UTF-8 give the text they encode, unchanged; for others the
/// result is the lossy decoding, which depends on the bytes alone.
#[verifier::external_body]
pub(crate) fn lossy_text(bytes: &[u8]) -> (s: String)
    ensures
        s@ == lossy_decode(bytes@),
        !valid_utf8(bytes@) ==> s@ == utf8_lossy(bytes@),
{
    String::from_utf8_lossy(bytes).into_owned()
}

/// Reads a decimal digit.
pub fn digit_value(c: char) -> (r: Option<u8>)
    ensures
        match r {
            Some(d) => d < 10 && digit_of(c) == Some(d as nat),
            None => digit_of(c) is None,
        },
{
    if c == '0' {
        Some(0)
    } else if c == '1' {
        Some(1)
    } else if c == '2' {
        Some(2)
    } else if c == '3' {
        Some(3)
    } else if c == '4' {
        Some(4)
    } else if c == '5' {
        Some(5)
    } else if c == '6' {
        Some(6)
    } else if c == '7' {
        Some(7)
    } else if c == '8' {
        Some(8)
    } else if c == '9' {
        Some(9)
    } else {
        None
    }
}

/// The text of a decimal digit.
pub fn digit_str(d: u8) -> (s: &'static str)
    requires
        d < 10,
    ensures
        s@ == digit_text(d as nat),
{
    if d == 0 {
        "0"
    } else if d == 1 {
        "1"
    } else if d == 2 {
        "2"
    } else if d == 3 {
        "3"
    } else if d == 4 {
        "4"
    } else if d == 5 {
        "5"
    } else if d == 6 {
        "6"
    } else if d == 7 {
        "7"
    } else if d == 8 {
        "8"
    } else {
        "9"
    }
}

/// The text of a hexadecimal digit.
pub fn hex_digit_str(d: u8) -> (s: &'static str)
    requires
        d < 16,
    ensures
        s@ == hex_digit_text(d as nat),
{
    if d < 10 {
        digit_str(d)
    } else if d == 10 {
        "A"
    } else if d == 11 {
        "B"
    } else if d == 12 {
        "C"
    } else if d == 13 {
        "D"
    } else if d == 14 {
        "E"
    } else {
        "F"
    }
}

/// Renders an unsigned number in base 10.
pub fn render_unsigned(n: u64) -> (s: String)
    ensures
        s@ == decimal(n as nat),
    decreases n,
{
    if n < 10 {
        String::from_str(digit_str(n as u8))
    } else {
        let mut s: String = render_unsigned(n / 10);
        s.append(digit_str((n % 10) as u8));
        s
    }
}

/// Renders a signed number in base 10.
pub fn render_signed(n: i64) -> (s: String)
    ensures
        s@ == signed_decimal(n as int),
{
    if n < 0 {
        let magnitude: u64 = ((-(n + 1)) as u64) + 1;
        let digits: String = render_unsigned(magnitude);
        let mut s: String = String::from_str("-");
        s.append(digits.as_str());
        s
    } else {
        render_unsigned(n as u64)
    }
}

/// Renders a block of bytes as space-separated upper-case hexadecimal pairs.
pub fn render_hex(bytes: &[u8]) -> (s: String)
    ensures
        s@ == hex_block(bytes@),
{
    let mut s: String = String::new();
    let mut i: usize = 0;
    while i < bytes.len()
        invariant
            i <= bytes@.len(),
            s@ == hex_block(bytes@.take(i as int)),
        decreases bytes@.len() - i,
    {
        let b: u8 = bytes[i];
        proof {
            assert(bytes@.take(i + 1).drop_last() =~= bytes@.take(i as int));
            assert(bytes@.take(i + 1).last() == b);
            if i == 0 {
                assert(hex_block(bytes@.take(0)) =~= Seq::<char>::empty());
            }
        }
        if i > 0 {
            s.append(" ");
        }
        s.append(hex_digit_str(b / 16));
        s.append(hex_digit_str(b % 16));
        proof {
            assert(s@ =~= hex_block(bytes@.take(i + 1)));
        }
        i = i + 1;
    }
    proof {
        assert(bytes@.take(i as int) =~= bytes@);
    }
    s
}

/// Copies the text without the NUL characters at its end.
pub fn trim_trailing_nul(s: &str) -> (r: String)
    ensures
        r@ == trim_nul(s@),
{
    let mut end: usize = s.unicode_len();
    proof {
        assert(s@.take(end as int) =~= s@);
    }
    while end > 0 && s.get_char(end - 1) == '\0'
        invariant
            end <= s@.len(),
            trim_nul(s@) == trim_nul(s@.take(end as int)),
        decreases end,
    {
        proof {
            assert(s@.take(end as int).drop_last() =~= s@.take(end - 1));
        }
        end = end - 1;
    }
    proof {
        assert(s@.subrange(0, end as int) =~= s@.take(end as int));
    }
    String::from_str(s.substring_char(0, end))
}

/// Decodes bytes as text, replacing what is not UTF-8, and drops the NUL
/// characters at the end.
pub fn render_text(bytes: &[u8]) -> (r: String)
    ensures
        r@ == trim_nul(lossy_decode(bytes@)),
{
    let decoded: String = lossy_text(bytes);
    trim_trailing_nul(decoded.as_str())
}

} // verus!
