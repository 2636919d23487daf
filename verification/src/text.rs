//! Text: comparison, ASCII letter case, substrings, hexadecimal and decimal digits.

use vstd::prelude::*;
use vstd::utf8::{decode_utf8, encode_utf8, encode_utf8_decode_utf8, is_ascii_chars, valid_utf8};

verus! {

/// The ASCII lower case of a character; other characters are their own.
pub open spec fn ascii_lower_char(c: char) -> char {
    if 'A' <= c <= 'Z' {
        (c as u8 + 32) as char
    } else {
        c
    }
}

/// The ASCII lower case of a text, letter by letter.
pub open spec fn ascii_lower(s: Seq<char>) -> Seq<char> {
    s.map_values(|c: char| ascii_lower_char(c))
}

/// A text is a word, each letter in lower or in upper case.
pub open spec fn is_spelled(text: Seq<char>, lower: Seq<char>, upper: Seq<char>) -> bool {
    &&& text.len() == lower.len()
    &&& forall|i: int|
        0 <= i < text.len() ==> (#[trigger] text[i] == lower[i] || text[i] == upper[i])
}

/// A text has a word as its ASCII lower case exactly when it is that word, each letter in
/// lower or in upper case.
pub proof fn lemma_spelled(text: Seq<char>, lower: Seq<char>, upper: Seq<char>)
    requires
        lower.len() == upper.len(),
        forall|i: int| 0 <= i < lower.len() ==> 'a' <= #[trigger] lower[i] <= 'z',
        forall|i: int|
            0 <= i < lower.len() ==> (#[trigger] upper[i]) as int + 32 == lower[i] as int,
    ensures
        ascii_lower(text) == lower <==> is_spelled(text, lower, upper),
{
    if ascii_lower(text) == lower {
        assert(ascii_lower(text).len() == text.len());
        assert forall|i: int| 0 <= i < text.len() implies (#[trigger] text[i] == lower[i] || text[i]
            == upper[i]) by {
            assert(ascii_lower(text)[i] == lower[i]);
            if text[i] != lower[i] {
                assert('A' <= text[i] <= 'Z');
                assert((text[i] as u8 + 32) as char == lower[i]);
                assert(text[i] as int + 32 == lower[i] as int);
                assert(upper[i] as int + 32 == lower[i] as int);
            }
        };
    }
    if is_spelled(text, lower, upper) {
        assert forall|i: int| 0 <= i < text.len() implies ascii_lower(text)[i] == lower[i] by {
            assert(text[i] == lower[i] || text[i] == upper[i]);
            assert('a' <= lower[i] <= 'z');
            assert(upper[i] as int + 32 == lower[i] as int);
        };
        assert(ascii_lower(text) =~= lower);
    }
}

/// `needle` occurs in `hay`.
pub open spec fn has_substring(hay: Seq<char>, needle: Seq<char>) -> bool {
    exists|i: int|
        0 <= i <= hay.len() - needle.len() && #[trigger] hay.subrange(i, i + needle.len())
            == needle
}

/// What `str::to_lowercase` makes of a text, by the Unicode tables.
pub uninterp spec fn unicode_lowercase(s: Seq<char>) -> Seq<char>;

/// What `String::from_utf8_lossy` makes of bytes.
pub uninterp spec fn utf8_lossy(bytes: Seq<u8>) -> Seq<char>;

/// The lower case of a text: on ASCII text that of the letters `A` to `Z`, and
/// elsewhere what the Unicode tables say.
pub open spec fn lowercase(s: Seq<char>) -> Seq<char> {
    if is_ascii_chars(s) {
        ascii_lower(s)
    } else {
        unicode_lowercase(s)
    }
}

/// Bytes as text: what they encode, or else what replacing their faults gives.
pub open spec fn lossy_text(bytes: Seq<u8>) -> Seq<char> {
    if valid_utf8(bytes) {
        decode_utf8(bytes)
    } else {
        utf8_lossy(bytes)
    }
}

/// `str::to_lowercase`: the Unicode lower case, which on ASCII text changes the
/// letters `A` to `Z` and nothing else.
#[verifier::external_body]
pub(crate) fn to_lowercase(s: &str) -> (r: String)
    ensures
        r@ == unicode_lowercase(s@),
        is_ascii_chars(s@) ==> r@ == ascii_lower(s@),
{
    s.to_lowercase()
}

/// `str::contains` with a text as the pattern: whether it occurs anywhere.
#[verifier::external_body]
pub(crate) fn contains(hay: &str, needle: &str) -> (r: bool)
    ensures
        r == has_substring(hay@, needle@),
{
    hay.contains(needle)
}

/// `String::from_utf8_lossy`: valid UTF-8 is decoded; what is put in place of
/// invalid bytes is left to the name.
#[verifier::external_body]
pub(crate) fn from_utf8_lossy(bytes: &[u8]) -> (r: String)
    ensures
        r@ == utf8_lossy(bytes@),
        valid_utf8(bytes@) ==> r@ == decode_utf8(bytes@),
{
    String::from_utf8_lossy(bytes).into_owned()
}

/// `str::eq_ignore_ascii_case`: equality of the ASCII lower cases.
pub assume_specification[ str::eq_ignore_ascii_case ](a: &str, b: &str) -> (r: bool)
    ensures
        r == (ascii_lower(a@) == ascii_lower(b@)),
;

/// `String::push`: one more character at the end.
pub assume_specification[ String::push ](s: &mut String, c: char)
    ensures
        final(s)@ == old(s)@.push(c),
;

/// Equality of two texts.
pub fn str_eq(a: &str, b: &str) -> (r: bool)
    ensures
        r == (a@ == b@),
{
    let x = a.as_bytes();
    let y = b.as_bytes();
    proof {
        encode_utf8_decode_utf8(a@);
        encode_utf8_decode_utf8(b@);
    }
    if x.len() != y.len() {
        return false;
    }
    let mut i: usize = 0;
    while i < x.len()
        invariant
            x@ == encode_utf8(a@),
            y@ == encode_utf8(b@),
            x.len() == y.len(),
            i <= x.len(),
            forall|j: int| 0 <= j < i ==> x@[j] == y@[j],
        decreases x.len() - i,
    {
        if x[i] != y[i] {
            return false;
        }
        i = i + 1;
    }
    assert(x@ =~= y@);
    true
}

/// The hexadecimal digit of a value below sixteen.
pub open spec fn hex_digit(d: int) -> char {
    if d < 10 {
        (48 + d) as char
    } else {
        (87 + d) as char
    }
}

/// Two lower-case hexadecimal digits for each byte, the high one first.
pub open spec fn hex(bytes: Seq<u8>) -> Seq<char> {
    Seq::new(
        2 * bytes.len(),
        |i: int|
            hex_digit(
                if i % 2 == 0 {
                    bytes[i / 2] as int / 16
                } else {
                    bytes[i / 2] as int % 16
                },
            ),
    )
}

fn hex_char(d: u8) -> (c: char)
    requires
        d < 16,
    ensures
        c == hex_digit(d as int),
{
    if d < 10 {
        (48 + d) as char
    } else {
        (87 + d) as char
    }
}

/// Writes bytes as lower-case hexadecimal text.
pub fn hex_encode(bytes: &[u8]) -> (r: String)
    ensures
        r@ == hex(bytes@),
{
    let mut s = String::new();
    let mut i: usize = 0;
    while i < bytes.len()
        invariant
            i <= bytes.len(),
            s@ == hex(bytes@.take(i as int)),
        decreases bytes.len() - i,
    {
        let b: u8 = bytes[i];
        s.push(hex_char(b / 16));
        s.push(hex_char(b % 16));
        proof {
            let before = bytes@.take(i as int);
            let after = bytes@.take(i + 1);
            assert(s@ =~= hex(after)) by {
                assert forall|j: int| 0 <= j < 2 * i implies hex(after)[j] == hex(before)[j] by {
                    assert(after[j / 2] == before[j / 2]);
                };
            };
        }
        i = i + 1;
    }
    assert(bytes@.take(bytes.len() as int) =~= bytes@);
    s
}

/// A decimal digit.
pub open spec fn is_digit(c: char) -> bool {
    '0' <= c <= '9'
}

pub open spec fn all_digits(s: Seq<char>) -> bool {
    forall|i: int| 0 <= i < s.len() ==> is_digit(#[trigger] s[i])
}

/// The number that a run of decimal digits stands for.
pub open spec fn digits_value(s: Seq<char>) -> nat
    decreases s.len(),
{
    if s.len() == 0 {
        0
    } else {
        digits_value(s.drop_last()) * 10 + (s.last() as int - 48) as nat
    }
}

/// The digits of a written number: what follows one optional plus sign.
pub open spec fn unsigned_digits(s: Seq<char>) -> Seq<char> {
    if s.len() > 0 && s[0] == '+' {
        s.drop_first()
    } else {
        s
    }
}

/// What a text says as an unsigned 64-bit number: at least one digit, after one
/// optional plus sign, and a value that fits.
pub open spec fn parsed_u64(s: Seq<char>) -> Option<u64> {
    let d = unsigned_digits(s);
    if d.len() > 0 && all_digits(d) && digits_value(d) <= u64::MAX {
        Some(digits_value(d) as u64)
    } else {
        None
    }
}

/// The decimal digits of a number, without leading zeros.
pub open spec fn decimal(n: nat) -> Seq<char>
    decreases n,
{
    if n < 10 {
        seq![(48 + n) as char]
    } else {
        decimal(n / 10).push((48 + n % 10) as char)
    }
}

proof fn lemma_digits_value_prefix(s: Seq<char>, i: int)
    requires
        0 <= i <= s.len(),
    ensures
        digits_value(s.take(i)) <= digits_value(s),
    decreases s.len() - i,
{
    if i < s.len() {
        let t = s.take(i + 1);
        assert(t.drop_last() =~= s.take(i));
        lemma_digits_value_prefix(s, i + 1);
    } else {
        assert(s.take(i) =~= s);
    }
}

/// Reads an unsigned 64-bit number.
pub fn parse_u64(s: &str) -> (r: Option<u64>)
    ensures
        r == parsed_u64(s@),
{
    broadcast use vstd::string::is_ascii_spec_bytes;

    if !s.is_ascii() {
        proof {
            let i = choose|i: int| 0 <= i < s@.len() && !('\0' <= #[trigger] s@[i] <= '\u{7f}');
            let d = unsigned_digits(s@);
            if d.len() > 0 && all_digits(d) {
                if s@[0] == '+' {
                    assert(i > 0);
                    assert(d[i - 1] == s@[i]);
                } else {
                    assert(d[i] == s@[i]);
                }
            }
        }
        return None;
    }
    let bytes = s.as_bytes();
    let ghost d = unsigned_digits(s@);
    let start: usize = if bytes.len() > 0 && bytes[0] == 43 {
        1
    } else {
        0
    };
    if start >= bytes.len() {
        return None;
    }
    let mut value: u64 = 0;
    let mut i: usize = start;
    proof {
        assert(d.take(0) =~= Seq::<char>::empty());
    }
    while i < bytes.len()
        invariant
            start <= i <= bytes.len(),
            start <= 1,
            d == unsigned_digits(s@),
            bytes@.len() == s@.len(),
            d.len() == s@.len() - start,
            d.len() > 0,
            forall|j: int| 0 <= j < s@.len() ==> (#[trigger] bytes@[j]) == s@[j] as u8
                && '\0' <= s@[j] <= '\u{7f}',
            forall|j: int| 0 <= j < d.len() ==> (#[trigger] d[j]) == s@[j + start],
            forall|j: int| 0 <= j < i - start ==> is_digit(#[trigger] d[j]),
            value == digits_value(d.take(i - start)),
        decreases bytes.len() - i,
    {
        let b: u8 = bytes[i];
        let ghost k = i - start;
        proof {
            assert(d[k] == s@[i as int]);
            assert(d.take(k + 1).drop_last() =~= d.take(k));
            assert(d.take(k + 1).last() == d[k]);
            lemma_digits_value_prefix(d, k + 1);
        }
        if b < 48 || b > 57 {
            assert(!is_digit(d[k]));
            return None;
        }
        assert(b == s@[i as int] as u8);
        assert(s@[i as int] as int == b as int);
        assert(is_digit(d[k]));
        let digit: u64 = (b - 48) as u64;
        if value > 1844674407370955161 {
            return None;
        }
        let tens: u64 = value * 10;
        if tens > 0xffff_ffff_ffff_ffff - digit {
            return None;
        }
        value = tens + digit;
        i = i + 1;
    }
    assert(d.take(d.len() as int) =~= d);
    Some(value)
}

fn push_decimal(s: &mut String, n: u64)
    ensures
        final(s)@ == old(s)@ + decimal(n as nat),
    decreases n,
{
    if n >= 10 {
        push_decimal(s, n / 10);
    }
    let digit: u8 = (n % 10) as u8;
    s.push((48 + digit) as char);
    assert(s@ =~= old(s)@ + decimal(n as nat));
}

/// Writes an unsigned number in decimal digits.
pub fn u64_to_string(n: u64) -> (r: String)
    ensures
        r@ == decimal(n as nat),
{
    let mut s = String::new();
    push_decimal(&mut s, n);
    assert(s@ =~= decimal(n as nat));
    s
}

/// What is written in decimal digits is digits only, and stands for the number.
pub proof fn lemma_decimal(n: nat)
    ensures
        decimal(n).len() > 0,
        all_digits(decimal(n)),
        digits_value(decimal(n)) == n,
    decreases n,
{
    if n < 10 {
        let s = decimal(n);
        assert(s.drop_last() =~= Seq::<char>::empty());
        assert(digits_value(s.drop_last()) == 0);
    } else {
        lemma_decimal(n / 10);
        let s = decimal(n);
        assert(s.drop_last() =~= decimal(n / 10));
        assert forall|i: int| 0 <= i < s.len() implies is_digit(#[trigger] s[i]) by {
            if i < s.len() - 1 {
                assert(s[i] == decimal(n / 10)[i]);
            }
        };
    }
}

/// A number written in decimal digits reads back as itself.
pub proof fn decimal_round_trip(n: u64)
    ensures
        parsed_u64(decimal(n as nat)) == Some(n),
{
    lemma_decimal(n as nat);
    assert(is_digit(decimal(n as nat)[0]));
}

/// A plus sign in front of digits changes nothing, and a text with anything but digits behind
/// an optional plus sign is no number.
pub proof fn numbers_are_digits(s: Seq<char>, i: int)
    ensures
        all_digits(s) && s.len() > 0 ==> parsed_u64(seq!['+'] + s) == parsed_u64(s),
        0 <= i < s.len() && !is_digit(s[i]) && !(i == 0 && s[0] == '+') ==> parsed_u64(s) is None,
        s.len() == 0 ==> parsed_u64(s) is None,
        parsed_u64(seq!['+']) is None,
{
    assert((seq!['+'] + s).drop_first() =~= s);
    if all_digits(s) && s.len() > 0 {
        assert(is_digit(s[0]));
    }
    if 0 <= i < s.len() && !is_digit(s[i]) && !(i == 0 && s[0] == '+') {
        let d = unsigned_digits(s);
        if s[0] == '+' {
            assert(d[i - 1] == s[i]);
        } else {
            assert(d[i] == s[i]);
        }
    }
}

/// One more digit behind a number makes it ten times as large, and adds the digit.
pub proof fn digits_count_tens(s: Seq<char>, c: char)
    requires
        all_digits(s),
        is_digit(c),
        s.len() > 0,
        parsed_u64(s) is Some,
        parsed_u64(s)->0 * 10 + (c as int - '0' as int) <= u64::MAX,
    ensures
        parsed_u64(s.push(c)) == Some((parsed_u64(s)->0 * 10 + (c as int - '0' as int)) as u64),
{
    let t = s.push(c);
    assert(t.drop_last() =~= s);
    assert(is_digit(s[0]) && t[0] == s[0]);
    assert(all_digits(t));
}

/// The value of a lower-case hexadecimal digit.
pub open spec fn hex_value(c: char) -> int {
    if '0' <= c <= '9' {
        c as int - '0' as int
    } else {
        c as int - 'a' as int + 10
    }
}

/// Hexadecimal text has two digits for each byte, in lower case, and they give the byte back.
pub proof fn hex_gives_bytes_back(bytes: Seq<u8>, i: int)
    requires
        0 <= i < bytes.len(),
    ensures
        hex(bytes).len() == 2 * bytes.len(),
        hex_value(hex(bytes)[2 * i]) * 16 + hex_value(hex(bytes)[2 * i + 1]) == bytes[i],
        is_digit(hex(bytes)[2 * i]) || 'a' <= hex(bytes)[2 * i] <= 'f',
        is_digit(hex(bytes)[2 * i + 1]) || 'a' <= hex(bytes)[2 * i + 1] <= 'f',
{
    assert((2 * i) / 2 == i && (2 * i + 1) / 2 == i);
    assert((2 * i) % 2 == 0 && (2 * i + 1) % 2 == 1);
}

} // verus!
