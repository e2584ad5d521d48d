//! Character and string helpers shared by the parsers: whitespace
//! classification, character-level string access, and decimal conversion
//! for status codes and ports.

use vstd::prelude::*;

verus! {

/// The Unicode whitespace characters, exactly the set that
/// `char::is_whitespace` accepts.
pub open spec fn is_whitespace_char(c: char) -> bool {
    ||| c == ' '
    ||| c == '\t'
    ||| c == '\n'
    ||| c == '\r'
    ||| c == '\u{b}'
    ||| c == '\u{c}'
    ||| c == '\u{85}'
    ||| c == '\u{a0}'
    ||| c == '\u{1680}'
    ||| (0x2000 <= c as u32 && c as u32 <= 0x200a)
    ||| c == '\u{2028}'
    ||| c == '\u{2029}'
    ||| c == '\u{202f}'
    ||| c == '\u{205f}'
    ||| c == '\u{3000}'
}

/// Decides `is_whitespace_char` on a concrete character.
pub fn is_whitespace(c: char) -> (r: bool)
    ensures
        r == is_whitespace_char(c),
{
    let n = c as u32;
    n == 0x20 || n == 0x09 || n == 0x0a || n == 0x0d || n == 0x0b || n == 0x0c || n == 0x85
        || n == 0xa0 || n == 0x1680 || (0x2000 <= n && n <= 0x200a) || n == 0x2028 || n == 0x2029
        || n == 0x202f || n == 0x205f || n == 0x3000
}

/// Relies on `String::push`: appends one character at the end.
#[verifier::external_body]
pub fn push_char(s: &mut String, c: char)
    ensures
        final(s)@ == old(s)@.push(c),
{
    s.push(c);
}

/// Copies the characters of a string slice into a vector, one `char` each.
pub fn to_chars(s: &str) -> (r: Vec<char>)
    ensures
        r@ == s@,
{
    let len = s.unicode_len();
    let mut r: Vec<char> = Vec::new();
    let mut i: usize = 0;
    while i < len
        invariant
            i <= len,
            len == s@.len(),
            r@ == s@.take(i as int),
        decreases len - i,
    {
        r.push(s.get_char(i));
        i = i + 1;
        proof {
            assert(s@.take(i as int) =~= s@.take(i as int - 1).push(s@[i as int - 1]));
        }
    }
    proof {
        assert(s@.take(len as int) =~= s@);
    }
    r
}

/// An ASCII decimal digit.
pub open spec fn is_digit_char(c: char) -> bool {
    48 <= c as u32 && c as u32 <= 57
}

/// The digit character for a value below ten.
pub open spec fn spec_digit_char(d: int) -> char {
    ((d + 48) as u8) as char
}

/// The decimal numeral of `n`, without leading zeros (a single `'0'`
/// for zero itself).
pub open spec fn spec_decimal(n: int) -> Seq<char>
    decreases n,
{
    if n < 10 {
        seq![spec_digit_char(n)]
    } else {
        spec_decimal(n / 10).push(spec_digit_char(n % 10))
    }
}

/// The number denoted by a sequence of decimal digit characters.
pub open spec fn spec_digits_value(s: Seq<char>) -> int
    decreases s.len(),
{
    if s.len() == 0 {
        0
    } else {
        spec_digits_value(s.drop_last()) * 10 + (s.last() as u32 - 48)
    }
}

/// The value of a bare run of digits: present when the text is all
/// digits, is not empty and the value fits in 16 bits.
pub open spec fn spec_parse_u16_digits(t: Seq<char>) -> Option<u16> {
    if t.len() > 0 && (forall|i: int| 0 <= i < t.len() ==> is_digit_char(t[i]))
        && spec_digits_value(t) <= 0xffff {
        Some(spec_digits_value(t) as u16)
    } else {
        None
    }
}

/// What parsing a decimal numeral as a 16-bit unsigned integer yields:
/// an optional leading `'+'` — which std's unsigned decimal parse
/// allows — followed by the digits.
pub open spec fn spec_parse_u16(s: Seq<char>) -> Option<u16> {
    if s.len() > 0 && s[0] == '+' {
        spec_parse_u16_digits(s.drop_first())
    } else {
        spec_parse_u16_digits(s)
    }
}

/// Writes `n` in decimal.
pub fn u16_to_string(n: u16) -> (r: String)
    ensures
        r@ == spec_decimal(n as int),
    decreases n,
{
    if n < 10 {
        let mut s = String::new();
        push_char(&mut s, digit_char(n as u8));
        s
    } else {
        let mut s = u16_to_string(n / 10);
        push_char(&mut s, digit_char((n % 10) as u8));
        s
    }
}

fn digit_char(d: u8) -> (c: char)
    requires
        d < 10,
    ensures
        c == spec_digit_char(d as int),
{
    (d + 48) as char
}

/// Reads a decimal numeral, accepting exactly what `spec_parse_u16`
/// describes.
pub fn parse_u16(s: &str) -> (r: Option<u16>)
    ensures
        r == spec_parse_u16(s@),
{
    let len = s.unicode_len();
    if len == 0 {
        return None;
    }
    let start: usize = if s.get_char(0) == '+' {
        1
    } else {
        0
    };
    let ghost t = if s@[0] == '+' {
        s@.drop_first()
    } else {
        s@
    };
    proof {
        assert(t =~= s@.subrange(start as int, len as int));
    }
    if start >= len {
        return None;
    }
    let mut value: u32 = 0;
    let mut i: usize = start;
    while i < len
        invariant
            start < len == s@.len(),
            start <= i <= len,
            start as int == (if s@[0] == '+' {
                1int
            } else {
                0int
            }),
            t == s@.subrange(start as int, len as int),
            t == (if s@.len() > 0 && s@[0] == '+' {
                s@.drop_first()
            } else {
                s@
            }),
            forall|j: int| 0 <= j < i - start ==> is_digit_char(t[j]),
            value == spec_digits_value(t.take(i - start)),
            value <= 0xffff,
        decreases len - i,
    {
        let c = s.get_char(i);
        let cv = c as u32;
        proof {
            assert(t[i - start] == s@[i as int]);
        }
        if cv < 48 || cv > 57 {
            proof {
                assert(!is_digit_char(t[i - start]));
                assert(spec_parse_u16_digits(t) == None::<u16>);
            }
            return None;
        }
        proof {
            assert(t.take(i + 1 - start).drop_last() =~= t.take(i - start));
            assert(t.take(i + 1 - start).last() == t[i - start]);
        }
        let next = value * 10 + (cv - 48);
        if next > 0xffff {
            proof {
                assert(is_digit_char(t[i - start]));
                assert(spec_digits_value(t.take(i + 1 - start)) > 0xffff);
                if forall|j: int| 0 <= j < t.len() ==> is_digit_char(t[j]) {
                    lemma_digits_prefix_bound(t, i + 1 - start);
                }
                assert(spec_parse_u16_digits(t) == None::<u16>);
            }
            return None;
        }
        value = next;
        i = i + 1;
    }
    proof {
        assert(t.take(len - start) =~= t);
    }
    Some(value as u16)
}

proof fn lemma_digits_prefix_bound(s: Seq<char>, k: int)
    requires
        0 <= k <= s.len(),
        forall|i: int| 0 <= i < s.len() ==> is_digit_char(s[i]),
        spec_digits_value(s.take(k)) > 0xffff,
    ensures
        spec_digits_value(s) > 0xffff,
    decreases s.len() - k,
{
    if k < s.len() {
        assert(s.take(k + 1).drop_last() =~= s.take(k));
        assert(is_digit_char(s.take(k + 1).last())) by {
            assert(s.take(k + 1).last() == s[k]);
        }
        assert(spec_digits_value(s.take(k + 1)) == spec_digits_value(s.take(k)) * 10 + (
        s.take(k + 1).last() as u32 - 48));
        lemma_digits_prefix_bound(s, k + 1);
    } else {
        assert(s.take(k) =~= s);
    }
}

/// How a scan decides to stop: at a given delimiter, or — when none is
/// given — at any whitespace character.
pub open spec fn stops_at(c: char, delimiter: Option<char>) -> bool {
    match delimiter {
        Some(d) => c == d,
        None => is_whitespace_char(c),
    }
}

/// The first position at or after `i` that holds a stopping character,
/// or the end of the text.
pub open spec fn scan_to(s: Seq<char>, i: int, delimiter: Option<char>) -> int
    decreases s.len() - i,
{
    if i < 0 || i >= s.len() {
        i
    } else if stops_at(s[i], delimiter) {
        i
    } else {
        scan_to(s, i + 1, delimiter)
    }
}

/// The first position at or after `i` that holds a non-whitespace
/// character, or the end of the text.
pub open spec fn skip_ws(s: Seq<char>, i: int) -> int
    decreases s.len() - i,
{
    if i < 0 || i >= s.len() {
        i
    } else if is_whitespace_char(s[i]) {
        skip_ws(s, i + 1)
    } else {
        i
    }
}

pub proof fn lemma_scan_to_bounds(s: Seq<char>, i: int, delimiter: Option<char>)
    requires
        0 <= i <= s.len(),
    ensures
        i <= scan_to(s, i, delimiter) <= s.len(),
    decreases s.len() - i,
{
    if i < s.len() && !stops_at(s[i], delimiter) {
        lemma_scan_to_bounds(s, i + 1, delimiter);
    }
}

pub proof fn lemma_skip_ws_bounds(s: Seq<char>, i: int)
    requires
        0 <= i <= s.len(),
    ensures
        i <= skip_ws(s, i) <= s.len(),
    decreases s.len() - i,
{
    if i < s.len() && is_whitespace_char(s[i]) {
        lemma_skip_ws_bounds(s, i + 1);
    }
}

/// The first position at or after `i` that holds anything but a space
/// character, or the end of the text. Narrower than `skip_ws`: CR and
/// LF do not count.
pub open spec fn skip_spaces(s: Seq<char>, i: int) -> int
    decreases s.len() - i,
{
    if i < 0 || i >= s.len() {
        i
    } else if s[i] == ' ' {
        skip_spaces(s, i + 1)
    } else {
        i
    }
}

pub proof fn lemma_skip_spaces_bounds(s: Seq<char>, i: int)
    requires
        0 <= i <= s.len(),
    ensures
        i <= skip_spaces(s, i) <= s.len(),
    decreases s.len() - i,
{
    if i < s.len() && s[i] == ' ' {
        lemma_skip_spaces_bounds(s, i + 1);
    }
}

/// Copies the characters between `from` and `to` into a fresh string.
pub fn substring_of(v: &Vec<char>, from: usize, to: usize) -> (r: String)
    requires
        from <= to <= v@.len(),
    ensures
        r@ == v@.subrange(from as int, to as int),
{
    let mut r = String::new();
    let mut i = from;
    while i < to
        invariant
            from <= i <= to <= v@.len(),
            r@ == v@.subrange(from as int, i as int),
        decreases to - i,
    {
        push_char(&mut r, v[i]);
        i = i + 1;
        proof {
            assert(v@.subrange(from as int, i as int) =~= v@.subrange(from as int, i - 1).push(
                v@[i - 1],
            ));
        }
    }
    r
}

/// Compares two string slices character by character.
pub fn str_eq(a: &str, b: &str) -> (r: bool)
    ensures
        r == (a@ == b@),
{
    let alen = a.unicode_len();
    let blen = b.unicode_len();
    if alen != blen {
        proof {
            assert(a@ != b@) by {
                assert(a@.len() != b@.len());
            }
        }
        return false;
    }
    let mut i: usize = 0;
    while i < alen
        invariant
            i <= alen,
            alen == a@.len(),
            alen == b@.len(),
            forall|j: int| 0 <= j < i ==> a@[j] == b@[j],
        decreases alen - i,
    {
        if a.get_char(i) != b.get_char(i) {
            return false;
        }
        i = i + 1;
    }
    proof {
        assert(a@ =~= b@);
    }
    true
}

} // verus!
