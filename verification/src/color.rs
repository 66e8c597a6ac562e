//! Hex colour notation (`ff00aa` or `#ff00aa`) and its decoding into RGB bytes.
use vstd::prelude::*;
use vstd::string::*;

verus! {

/// Why a colour string was refused.
#[derive(Debug)]
pub enum ColorError {
    /// The string is not six hex digits, with or without one leading `#`; it holds the
    /// string as it was given.
    InvalidHexColor(String),
}

impl ColorError {
    /// The text of this error.
    pub open spec fn message_text(&self) -> Seq<char> {
        match self {
            ColorError::InvalidHexColor(s) => "Invalid hex color: \""@ + s@
                + "\". Expected format: ff00aa or #ff00aa"@,
        }
    }

    /// The text of this error: the refused string and the accepted formats.
    pub fn message(&self) -> (r: String)
        ensures
            r@ == self.message_text(),
    {
        match self {
            ColorError::InvalidHexColor(s) => {
                let mut out = String::from_str("Invalid hex color: \"");
                out.append(s.as_str());
                out.append("\". Expected format: ff00aa or #ff00aa");
                out
            },
        }
    }
}

/// Whether `c` is one of `0-9`, `a-f`, `A-F`.
pub open spec fn is_hex_digit(c: char) -> bool {
    ('0' <= c && c <= '9') || ('a' <= c && c <= 'f') || ('A' <= c && c <= 'F')
}

/// Value of an ASCII hexadecimal digit, in either case.
pub open spec fn hex_digit_value(c: char) -> int {
    if '0' <= c && c <= '9' {
        c as int - '0' as int
    } else if 'a' <= c && c <= 'f' {
        c as int - 'a' as int + 10
    } else {
        c as int - 'A' as int + 10
    }
}

/// The digits of a colour: the string without one leading `#`, if it has one.
pub open spec fn hex_body(s: Seq<char>) -> Seq<char> {
    if s.len() > 0 && s[0] == '#' {
        s.drop_first()
    } else {
        s
    }
}

/// Whether `s` is accepted as a colour: exactly six hex digits after at most one `#`.
pub open spec fn is_hex_color(s: Seq<char>) -> bool {
    let h = hex_body(s);
    &&& h.len() == 6
    &&& forall|i: int| 0 <= i < 6 ==> #[trigger] is_hex_digit(h[i])
}

/// The byte written by two hex digits, high digit first.
pub open spec fn hex_pair(hi: char, lo: char) -> u8 {
    (hex_digit_value(hi) * 16 + hex_digit_value(lo)) as u8
}

/// The red, green and blue bytes written by an accepted colour string.
pub open spec fn decode_hex_color(s: Seq<char>) -> (u8, u8, u8) {
    let h = hex_body(s);
    (hex_pair(h[0], h[1]), hex_pair(h[2], h[3]), hex_pair(h[4], h[5]))
}

/// The lower-case hex digit of a value below sixteen.
pub open spec fn lower_hex_digit(d: int) -> char {
    seq!['0', '1', '2', '3', '4', '5', '6', '7', '8', '9', 'a', 'b', 'c', 'd', 'e', 'f'][d]
}

/// `#` followed by each byte as two lower-case hex digits, high digit first.
pub open spec fn hex_notation(r: u8, g: u8, b: u8) -> Seq<char> {
    seq![
        '#',
        lower_hex_digit(r as int / 16),
        lower_hex_digit(r as int % 16),
        lower_hex_digit(g as int / 16),
        lower_hex_digit(g as int % 16),
        lower_hex_digit(b as int / 16),
        lower_hex_digit(b as int % 16),
    ]
}

proof fn lemma_lower_hex_digit(d: int)
    requires
        0 <= d < 16,
    ensures
        is_hex_digit(lower_hex_digit(d)),
        hex_digit_value(lower_hex_digit(d)) == d,
{
    let digits = seq!['0', '1', '2', '3', '4', '5', '6', '7', '8', '9', 'a', 'b', 'c', 'd', 'e', 'f'];
    assert(digits[0] == '0' && digits[1] == '1' && digits[2] == '2' && digits[3] == '3');
    assert(digits[4] == '4' && digits[5] == '5' && digits[6] == '6' && digits[7] == '7');
    assert(digits[8] == '8' && digits[9] == '9' && digits[10] == 'a' && digits[11] == 'b');
    assert(digits[12] == 'c' && digits[13] == 'd' && digits[14] == 'e' && digits[15] == 'f');
}

/// Writing a colour with `rgb_to_hex` and reading it back with `hex_to_rgb` gives the
/// same colour: the notation is accepted and decodes to the bytes it was made from.
pub proof fn lemma_hex_notation_round_trip(r: u8, g: u8, b: u8)
    ensures
        is_hex_color(hex_notation(r, g, b)),
        decode_hex_color(hex_notation(r, g, b)) == (r, g, b),
{
    lemma_lower_hex_digit(r as int / 16);
    lemma_lower_hex_digit(r as int % 16);
    lemma_lower_hex_digit(g as int / 16);
    lemma_lower_hex_digit(g as int % 16);
    lemma_lower_hex_digit(b as int / 16);
    lemma_lower_hex_digit(b as int % 16);
    let s = hex_notation(r, g, b);
    let h = hex_body(s);
    assert(h =~= s.drop_first());
    assert forall|i: int| 0 <= i < 6 implies #[trigger] is_hex_digit(h[i]) by {
        assert(h[i] == s[i + 1]);
    }
}

/// The hex digits are exactly `0-9`, `a-f` and `A-F`, and each has its standard value:
/// `0`-`9` are zero to nine, and `a`-`f` and `A`-`F` alike are ten to fifteen.
pub proof fn lemma_hex_digit_values(c: char)
    ensures
        is_hex_digit(c) <==> (c == '0' || c == '1' || c == '2' || c == '3' || c == '4' || c == '5'
            || c == '6' || c == '7' || c == '8' || c == '9' || c == 'a' || c == 'b' || c == 'c' || c
            == 'd' || c == 'e' || c == 'f' || c == 'A' || c == 'B' || c == 'C' || c == 'D' || c
            == 'E' || c == 'F'),
        hex_digit_value('0') == 0 && hex_digit_value('1') == 1 && hex_digit_value('2') == 2
            && hex_digit_value('3') == 3 && hex_digit_value('4') == 4 && hex_digit_value('5') == 5,
        hex_digit_value('6') == 6 && hex_digit_value('7') == 7 && hex_digit_value('8') == 8
            && hex_digit_value('9') == 9,
        hex_digit_value('a') == 10 && hex_digit_value('b') == 11 && hex_digit_value('c') == 12
            && hex_digit_value('d') == 13 && hex_digit_value('e') == 14 && hex_digit_value('f') == 15,
        hex_digit_value('A') == 10 && hex_digit_value('B') == 11 && hex_digit_value('C') == 12
            && hex_digit_value('D') == 13 && hex_digit_value('E') == 14 && hex_digit_value('F') == 15,
{
}

/// `rgb_to_hex` writes each value below sixteen as its standard lower-case digit.
pub proof fn lemma_lower_hex_digits()
    ensures
        lower_hex_digit(0) == '0' && lower_hex_digit(1) == '1' && lower_hex_digit(2) == '2'
            && lower_hex_digit(3) == '3' && lower_hex_digit(4) == '4' && lower_hex_digit(5) == '5',
        lower_hex_digit(6) == '6' && lower_hex_digit(7) == '7' && lower_hex_digit(8) == '8'
            && lower_hex_digit(9) == '9',
        lower_hex_digit(10) == 'a' && lower_hex_digit(11) == 'b' && lower_hex_digit(12) == 'c'
            && lower_hex_digit(13) == 'd' && lower_hex_digit(14) == 'e' && lower_hex_digit(15) == 'f',
{
    let digits = seq!['0', '1', '2', '3', '4', '5', '6', '7', '8', '9', 'a', 'b', 'c', 'd', 'e', 'f'];
    assert(digits[0] == '0' && digits[1] == '1' && digits[2] == '2' && digits[3] == '3');
    assert(digits[4] == '4' && digits[5] == '5' && digits[6] == '6' && digits[7] == '7');
    assert(digits[8] == '8' && digits[9] == '9' && digits[10] == 'a' && digits[11] == 'b');
    assert(digits[12] == 'c' && digits[13] == 'd' && digits[14] == 'e' && digits[15] == 'f');
}

/// A colour is decoded pair by pair, high digit first: each byte is sixteen times the
/// standard value of its first digit plus that of its second, whatever the case of the
/// letters and whether a `#` leads.
pub proof fn lemma_decode_by_pairs(s: Seq<char>)
    requires
        is_hex_color(s),
    ensures
        ({
            let h = if s[0] == '#' { s.drop_first() } else { s };
            let (r, g, b) = decode_hex_color(s);
            &&& h.len() == 6
            &&& r as int == hex_digit_value(h[0]) * 16 + hex_digit_value(h[1])
            &&& g as int == hex_digit_value(h[2]) * 16 + hex_digit_value(h[3])
            &&& b as int == hex_digit_value(h[4]) * 16 + hex_digit_value(h[5])
            &&& 0 <= hex_digit_value(h[0]) < 16 && 0 <= hex_digit_value(h[1]) < 16
        }),
{
    let h = hex_body(s);
    assert(is_hex_digit(h[0]) && is_hex_digit(h[1]) && is_hex_digit(h[2]));
    assert(is_hex_digit(h[3]) && is_hex_digit(h[4]) && is_hex_digit(h[5]));
}

fn hex_digit(c: char) -> (r: Option<u8>)
    ensures
        r is Some <==> is_hex_digit(c),
        r matches Some(v) ==> v as int == hex_digit_value(c) && v < 16,
{
    let n = c as u32;
    if 48 <= n && n <= 57 {
        Some((n - 48) as u8)
    } else if 97 <= n && n <= 102 {
        Some((n - 87) as u8)
    } else if 65 <= n && n <= 70 {
        Some((n - 55) as u8)
    } else {
        None
    }
}

/// Decodes a colour written as six hex digits, with or without one leading `#`.
///
/// Any other string is refused with an error that holds it.
pub fn hex_to_rgb(s: &str) -> (r: Result<(u8, u8, u8), ColorError>)
    ensures
        is_hex_color(s@) ==> r == Ok::<(u8, u8, u8), ColorError>(decode_hex_color(s@)),
        !is_hex_color(s@) ==> (r matches Err(ColorError::InvalidHexColor(t)) && t@ == s@),
{
    let n = s.unicode_len();
    let start: usize = if n > 0 && s.get_char(0) == '#' {
        1
    } else {
        0
    };
    let ghost h = hex_body(s@);
    assert(h =~= s@.subrange(start as int, n as int));
    if n - start != 6 {
        return Err(ColorError::InvalidHexColor(String::from_str(s)));
    }
    let mut digits: Vec<u8> = Vec::new();
    let mut i: usize = 0;
    while i < 6
        invariant
            0 <= i <= 6,
            n == s@.len(),
            n - start == 6,
            h =~= s@.subrange(start as int, n as int),
            digits@.len() == i,
            forall|j: int| 0 <= j < i ==> #[trigger] is_hex_digit(h[j]),
            forall|j: int| 0 <= j < i ==> digits@[j] as int == hex_digit_value(#[trigger] h[j])
                && digits@[j] < 16,
        decreases 6 - i,
    {
        let c = s.get_char(start + i);
        match hex_digit(c) {
            Some(v) => {
                digits.push(v);
            },
            None => {
                return Err(ColorError::InvalidHexColor(String::from_str(s)));
            },
        }
        i = i + 1;
    }
    assert(is_hex_digit(h[0]) && is_hex_digit(h[1]) && is_hex_digit(h[2]));
    assert(is_hex_digit(h[3]) && is_hex_digit(h[4]) && is_hex_digit(h[5]));
    let red = digits[0] * 16 + digits[1];
    let green = digits[2] * 16 + digits[3];
    let blue = digits[4] * 16 + digits[5];
    Ok((red, green, blue))
}

pub(crate) fn lower_hex_str(d: u8) -> (s: &'static str)
    requires
        d < 16,
    ensures
        s@ == seq![lower_hex_digit(d as int)],
{
    let digits = "0123456789abcdef";
    proof {
        reveal_strlit("0123456789abcdef");
        assert(digits@ =~= seq![
            '0', '1', '2', '3', '4', '5', '6', '7', '8', '9', 'a', 'b', 'c', 'd', 'e', 'f',
        ]);
    }
    let out = digits.substring_char(d as usize, d as usize + 1);
    assert(out@ =~= seq![lower_hex_digit(d as int)]);
    out
}

/// Writes a colour as `#` and six lower-case hex digits, the notation that
/// `hex_to_rgb` reads back.
pub fn rgb_to_hex(r: u8, g: u8, b: u8) -> (s: String)
    ensures
        s@ == hex_notation(r, g, b),
{
    let mut out = String::from_str("#");
    proof {
        reveal_strlit("#");
    }
    out.append(lower_hex_str(r / 16));
    out.append(lower_hex_str(r % 16));
    out.append(lower_hex_str(g / 16));
    out.append(lower_hex_str(g % 16));
    out.append(lower_hex_str(b / 16));
    out.append(lower_hex_str(b % 16));
    assert(out@ =~= hex_notation(r, g, b));
    out
}

} // verus!
