//! Reading a `#rgb` or `#rrggbb` color written as text into its three
//! channels.
use vstd::prelude::*;
use crate::easing_parse::{chars_of, text_between, trim_text, trimmed};
use crate::json_format::{push_char, push_text};

verus! {

/// Why a color text was refused.
#[derive(Clone, Copy, Debug, PartialEq, Eq)]
pub enum HexColorError {
    /// The hex digits are neither three nor six bytes long.
    BadLength,
    /// The red channel is not a hex number.
    InvalidRed,
    /// The green channel is not a hex number.
    InvalidGreen,
    /// The blue channel is not a hex number.
    InvalidBlue,
}

/// The value of a hex digit (`0-9`, `a-f`, `A-F`).
pub open spec fn hex_digit(c: char) -> Option<nat> {
    if '0' <= c && c <= '9' {
        Some((c as u32 - '0' as u32) as nat)
    } else if 'a' <= c && c <= 'f' {
        Some((c as u32 - 'a' as u32 + 10) as nat)
    } else if 'A' <= c && c <= 'F' {
        Some((c as u32 - 'A' as u32 + 10) as nat)
    } else {
        None
    }
}

/// The value of a run of hex digits, if every character is one.
pub open spec fn hex_digits_value(d: Seq<char>) -> Option<nat>
    decreases d.len(),
{
    if d.len() == 0 {
        Some(0)
    } else {
        match (hex_digits_value(d.drop_last()), hex_digit(d.last())) {
            (Some(a), Some(b)) => Some(16 * a + b),
            _ => None,
        }
    }
}

/// What `u8::from_str_radix(s, 16)` gives: an optional `+` followed by at
/// least one hex digit and nothing else, with a value that fits in a byte.
pub open spec fn radix16(s: Seq<char>) -> Option<u8> {
    let d = if s.len() > 0 && s[0] == '+' { s.drop_first() } else { s };
    if d.len() == 0 {
        None
    } else {
        match hex_digits_value(d) {
            Some(v) => if v <= 255 { Some(v as u8) } else { None },
            None => None,
        }
    }
}

/// `u8::from_str_radix` in base sixteen: the string is an optional `+`
/// followed by digits only, and the value must fit in a `u8`.
#[verifier::external_body]
fn u8_from_hex(s: &str) -> (r: Option<u8>)
    ensures
        r == radix16(s@),
{
    u8::from_str_radix(s, 16).ok()
}

/// Bytes a character takes in UTF-8.
pub open spec fn utf8_len(c: char) -> nat {
    if (c as u32) < 0x80 {
        1
    } else if (c as u32) < 0x800 {
        2
    } else if (c as u32) < 0x10000 {
        3
    } else {
        4
    }
}

/// Bytes a text takes in UTF-8.
pub open spec fn byte_len(s: Seq<char>) -> nat
    decreases s.len(),
{
    if s.len() == 0 {
        0
    } else {
        byte_len(s.drop_last()) + utf8_len(s.last())
    }
}

/// Index of the first character at or after `i` that is not `#`.
pub open spec fn hashes_end(s: Seq<char>, i: int) -> int
    decreases s.len() - i,
{
    if 0 <= i < s.len() && s[i] == '#' {
        hashes_end(s, i + 1)
    } else {
        i
    }
}

/// The text without its leading `#` characters.
pub open spec fn strip_hashes(s: Seq<char>) -> Seq<char> {
    s.subrange(hashes_end(s, 0), s.len() as int)
}

/// Scanning from character `i`, `acc` bytes in: the number of characters
/// that take exactly `n` bytes, if a character starts at byte `n`.
pub open spec fn cut_from(s: Seq<char>, i: int, acc: nat, n: nat) -> Option<int>
    decreases s.len() - i,
{
    if acc == n {
        Some(i)
    } else if acc > n || i < 0 || i >= s.len() {
        None
    } else {
        cut_from(s, i + 1, acc + utf8_len(s[i]), n)
    }
}

/// The number of characters that take exactly `n` bytes, if a character
/// starts at byte `n`.
pub open spec fn cut_at(s: Seq<char>, n: nat) -> Option<int> {
    cut_from(s, 0, 0, n)
}

/// Whether reading the trimmed text `t` cuts no character apart: three
/// bytes of digits are three one-byte characters, and six bytes of digits
/// have characters starting at bytes 2 and 4.
pub open spec fn cuts_on_characters(t: Seq<char>) -> bool {
    let h = strip_hashes(t);
    &&& byte_len(h) == 3 ==> h.len() == 3
    &&& byte_len(h) == 6 ==> cut_at(h, 2) is Some && cut_at(h, 4) is Some
}

/// The channels of the trimmed text `t`: after its leading `#`s, three
/// digits each written twice, or three pairs of digits; the first channel
/// that is not a hex number is reported.
pub open spec fn hex_color_from_trimmed(t: Seq<char>) -> Result<(u8, u8, u8), HexColorError> {
    let h = strip_hashes(t);
    let channels = if byte_len(h) == 3 {
        Some((radix16(seq![h[0], h[0]]), radix16(seq![h[1], h[1]]), radix16(seq![h[2], h[2]])))
    } else if byte_len(h) == 6 {
        let a = cut_at(h, 2)->0;
        let b = cut_at(h, 4)->0;
        Some((radix16(h.subrange(0, a)), radix16(h.subrange(a, b)), radix16(h.subrange(b, h.len() as int))))
    } else {
        None
    };
    match channels {
        None => Err(HexColorError::BadLength),
        Some((None, _, _)) => Err(HexColorError::InvalidRed),
        Some((_, None, _)) => Err(HexColorError::InvalidGreen),
        Some((_, _, None)) => Err(HexColorError::InvalidBlue),
        Some((Some(r), Some(g), Some(b))) => Ok((r, g, b)),
    }
}

/// Bytes a character takes in UTF-8.
fn char_bytes(c: char) -> (n: u128)
    ensures
        n == utf8_len(c),
{
    let code = c as u32;
    if code < 0x80 {
        1
    } else if code < 0x800 {
        2
    } else if code < 0x10000 {
        3
    } else {
        4
    }
}

/// UTF-8 length of a text.
fn text_bytes(s: &Vec<char>) -> (n: u128)
    ensures
        n == byte_len(s@),
{
    let mut n: u128 = 0;
    let mut i: usize = 0;
    while i < s.len()
        invariant
            i <= s@.len(),
            n == byte_len(s@.take(i as int)),
            n <= 4 * i,
        decreases s@.len() - i,
    {
        assert(s@.take(i + 1).drop_last() =~= s@.take(i as int));
        n = n + char_bytes(s[i]);
        i += 1;
    }
    assert(s@.take(i as int) =~= s@);
    n
}

/// Characters that take exactly `n` bytes, if a character starts at byte `n`.
fn cut(s: &Vec<char>, n: u128) -> (r: Option<usize>)
    ensures
        r matches Some(k) ==> cut_at(s@, n as nat) == Some(k as int),
        r is None ==> cut_at(s@, n as nat) is None,
{
    let mut acc: u128 = 0;
    let mut i: usize = 0;
    loop
        invariant
            i <= s@.len(),
            acc <= 4 * i,
            cut_from(s@, i as int, acc as nat, n as nat) == cut_at(s@, n as nat),
        decreases s@.len() - i,
    {
        if acc == n {
            return Some(i);
        }
        if acc > n || i >= s.len() {
            return None;
        }
        acc = acc + char_bytes(s[i]);
        i += 1;
    }
}

/// The digit written twice.
fn doubled(c: char) -> (s: String)
    ensures
        s@ == seq![c, c],
{
    let mut s = String::new();
    push_char(&mut s, c);
    push_char(&mut s, c);
    s
}

/// Read the channels of a color text that has already been trimmed.
pub fn parse_trimmed_hex_color(text: &str) -> (res: Result<(u8, u8, u8), HexColorError>)
    requires
        cuts_on_characters(text@),
    ensures
        res == hex_color_from_trimmed(text@),
{
    let t = chars_of(text);
    let mut k: usize = 0;
    while k < t.len() && t[k] == '#'
        invariant
            k <= t@.len(),
            hashes_end(t@, k as int) == hashes_end(t@, 0),
        decreases t@.len() - k,
    {
        k += 1;
    }
    let n = t.len();
    let h_text = text_between(&t, k, n);
    let h = chars_of(h_text.as_str());
    let len = text_bytes(&h);
    let (r, g, b) = if len == 3 {
        (
            u8_from_hex(doubled(h[0]).as_str()),
            u8_from_hex(doubled(h[1]).as_str()),
            u8_from_hex(doubled(h[2]).as_str()),
        )
    } else if len == 6 {
        let a = match cut(&h, 2) {
            Some(a) => a,
            None => return Err(HexColorError::BadLength),
        };
        let b = match cut(&h, 4) {
            Some(b) => b,
            None => return Err(HexColorError::BadLength),
        };
        proof {
            lemma_cut_order(h@);
        }
        (
            u8_from_hex(text_between(&h, 0, a).as_str()),
            u8_from_hex(text_between(&h, a, b).as_str()),
            u8_from_hex(text_between(&h, b, h.len()).as_str()),
        )
    } else {
        return Err(HexColorError::BadLength);
    };
    match (r, g, b) {
        (None, _, _) => Err(HexColorError::InvalidRed),
        (_, None, _) => Err(HexColorError::InvalidGreen),
        (_, _, None) => Err(HexColorError::InvalidBlue),
        (Some(r), Some(g), Some(b)) => Ok((r, g, b)),
    }
}

proof fn lemma_cut_from_range(s: Seq<char>, i: int, acc: nat, n: nat)
    requires
        0 <= i,
    ensures
        cut_from(s, i, acc, n) matches Some(k) ==> i <= k && (i <= s.len() ==> k <= s.len()),
    decreases s.len() - i,
{
    if acc != n && !(acc > n || i >= s.len()) {
        lemma_cut_from_range(s, i + 1, acc + utf8_len(s[i]), n);
    }
}

proof fn lemma_cut_from_monotone(s: Seq<char>, i: int, acc: nat, n: nat, m: nat)
    requires
        0 <= i,
        n <= m,
        cut_from(s, i, acc, n) is Some,
        cut_from(s, i, acc, m) is Some,
    ensures
        cut_from(s, i, acc, n)->0 <= cut_from(s, i, acc, m)->0,
    decreases s.len() - i,
{
    lemma_cut_from_range(s, i, acc, n);
    lemma_cut_from_range(s, i, acc, m);
    if acc != n && acc != m && !(acc > n || i >= s.len()) {
        lemma_cut_from_monotone(s, i + 1, acc + utf8_len(s[i]), n, m);
    }
}

proof fn lemma_cut_order(s: Seq<char>)
    ensures
        cut_at(s, 2) is Some && cut_at(s, 4) is Some ==> 0 <= cut_at(s, 2)->0 <= cut_at(s, 4)->0 <= s.len(),
{
    lemma_cut_from_range(s, 0, 0, 2);
    lemma_cut_from_range(s, 0, 0, 4);
    if cut_at(s, 2) is Some && cut_at(s, 4) is Some {
        lemma_cut_from_monotone(s, 0, 0, 2, 4);
    }
}

/// Whether reading the trimmed text cuts no character apart.
fn cuts_ok(text: &str) -> (b: bool)
    ensures
        b == cuts_on_characters(text@),
{
    let t = chars_of(text);
    let mut k: usize = 0;
    while k < t.len() && t[k] == '#'
        invariant
            k <= t@.len(),
            hashes_end(t@, k as int) == hashes_end(t@, 0),
        decreases t@.len() - k,
    {
        k += 1;
    }
    let n = t.len();
    let h_text = text_between(&t, k, n);
    let h = chars_of(h_text.as_str());
    let len = text_bytes(&h);
    if len == 3 {
        h.len() == 3
    } else if len == 6 {
        cut(&h, 2).is_some() && cut(&h, 4).is_some()
    } else {
        true
    }
}

/// Read the channels of a `#rgb` or `#rrggbb` color: trim the text, drop its
/// leading `#`s, and read the digits. `None` where the channels would be
/// cut inside a character (possible only with non-ASCII text).
pub fn parse_hex_color(input: &str) -> (res: Option<Result<(u8, u8, u8), HexColorError>>)
    ensures
        cuts_on_characters(trimmed(input@)) ==> res == Some(hex_color_from_trimmed(trimmed(input@))),
        !cuts_on_characters(trimmed(input@)) ==> res is None,
{
    let t = trim_text(input);
    if cuts_ok(t) {
        Some(parse_trimmed_hex_color(t))
    } else {
        None
    }
}

impl HexColorError {
    /// The error's message for the color text `input`.
    pub fn message(&self, input: &str) -> (text: String)
        ensures
            text@ == match *self {
                HexColorError::BadLength => "expected #rgb or #rrggbb color, got `"@ + input@ + "`"@,
                HexColorError::InvalidRed => "invalid red channel in `"@ + input@ + "`"@,
                HexColorError::InvalidGreen => "invalid green channel in `"@ + input@ + "`"@,
                HexColorError::InvalidBlue => "invalid blue channel in `"@ + input@ + "`"@,
            },
    {
        let mut out = match *self {
            HexColorError::BadLength => "expected #rgb or #rrggbb color, got `".to_owned(),
            HexColorError::InvalidRed => "invalid red channel in `".to_owned(),
            HexColorError::InvalidGreen => "invalid green channel in `".to_owned(),
            HexColorError::InvalidBlue => "invalid blue channel in `".to_owned(),
        };
        push_text(&mut out, input);
        push_text(&mut out, "`");
        out
    }
}

} // verus!
