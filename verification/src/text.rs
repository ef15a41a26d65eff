//! Text building blocks: hexadecimal numbers, quoted ASCII, and strings
//! grown one character at a time.

use vstd::prelude::*;
use vstd::string::StringExecFns;
use vstd::utf8::{decode_utf8, valid_utf8};

verus! {

/// Lower-case hexadecimal digit of `d` (`0 <= d < 16`).
pub open spec fn hex_digit(d: int) -> char {
    if d < 10 {
        (48 + d) as char
    } else {
        (87 + d) as char
    }
}

/// `v` as two lower-case hex digits.
pub open spec fn hex2(v: int) -> Seq<char> {
    seq![hex_digit((v / 16) % 16), hex_digit(v % 16)]
}

/// `v` as four lower-case hex digits.
pub open spec fn hex4(v: int) -> Seq<char> {
    hex2((v / 256) % 256) + hex2(v % 256)
}

/// `"0x"` followed by two hex digits, as `{:#04x}` prints a byte.
pub open spec fn hex_byte_text(v: u8) -> Seq<char> {
    seq!['0', 'x'] + hex2(v as int)
}

/// `"0x"` followed by four hex digits, as `{:#06x}` prints a 16-bit value.
pub open spec fn hex_word_text(v: u16) -> Seq<char> {
    seq!['0', 'x'] + hex4(v as int)
}

/// A character as it appears inside a debug-quoted string: `"` and `\` are
/// escaped with a backslash.
pub open spec fn escape_char(c: char) -> Seq<char> {
    if c == '"' || c == '\\' {
        seq!['\\', c]
    } else {
        seq![c]
    }
}

/// Every character of `s` escaped.
pub open spec fn escape_all(s: Seq<char>) -> Seq<char>
    decreases s.len(),
{
    if s.len() == 0 {
        Seq::empty()
    } else {
        escape_all(s.drop_last()) + escape_char(s.last())
    }
}

/// `s` between double quotes with `"` and `\` escaped, as `{:?}` prints a
/// string of printable ASCII.
pub open spec fn quoted(s: Seq<char>) -> Seq<char> {
    seq!['"'] + escape_all(s) + seq!['"']
}

/// Appends one character to `s` (`String::push`).
#[verifier::external_body]
pub(crate) fn push_char(s: &mut String, c: char)
    ensures
        final(s)@ == old(s)@.push(c),
{
    s.push(c);
}

/// Appends a string slice to `s`.
pub fn push_str(s: &mut String, t: &str)
    ensures
        final(s)@ == old(s)@ + t@,
{
    s.append(t);
}

/// Hex digit character of `d`.
pub fn hex_char(d: u8) -> (c: char)
    requires
        d < 16,
    ensures
        c == hex_digit(d as int),
{
    if d < 10 {
        (48 + d) as char
    } else {
        (87 + d) as char
    }
}

/// Appends `v` as two lower-case hex digits.
pub fn push_hex2(s: &mut String, v: u8)
    ensures
        final(s)@ == old(s)@ + hex2(v as int),
{
    push_char(s, hex_char(v / 16));
    push_char(s, hex_char(v % 16));
    assert(s@ =~= old(s)@ + hex2(v as int));
}

/// Appends `v` as four lower-case hex digits.
pub fn push_hex4(s: &mut String, v: u16)
    ensures
        final(s)@ == old(s)@ + hex4(v as int),
{
    let hi = (v / 256) as u8;
    let lo = (v % 256) as u8;
    assert(hi as int == (v as int / 256) % 256);
    assert(lo as int == v as int % 256);
    push_hex2(s, hi);
    push_hex2(s, lo);
    assert(hex4(v as int) == hex2(hi as int) + hex2(lo as int));
    assert(s@ =~= old(s)@ + hex4(v as int));
}

/// Appends `v` as `{:#04x}` prints it.
pub fn push_hex_byte(s: &mut String, v: u8)
    ensures
        final(s)@ == old(s)@ + hex_byte_text(v),
{
    push_char(s, '0');
    push_char(s, 'x');
    push_hex2(s, v);
    assert(s@ =~= old(s)@ + hex_byte_text(v));
}

/// Appends `v` as `{:#06x}` prints it.
pub fn push_hex_word(s: &mut String, v: u16)
    ensures
        final(s)@ == old(s)@ + hex_word_text(v),
{
    push_char(s, '0');
    push_char(s, 'x');
    push_hex4(s, v);
    assert(s@ =~= old(s)@ + hex_word_text(v));
}

/// Appends the bytes of `t` as characters, double-quoted and escaped.
pub fn push_quoted_bytes(s: &mut String, t: &[u8])
    ensures
        final(s)@ == old(s)@ + quoted(t@.map_values(|b: u8| b as char)),
{
    let ghost chars = t@.map_values(|b: u8| b as char);
    push_char(s, '"');
    let mut i: usize = 0;
    while i < t.len()
        invariant
            i <= t@.len(),
            chars == t@.map_values(|b: u8| b as char),
            s@ == old(s)@ + seq!['"'] + escape_all(chars.take(i as int)),
        decreases t.len() - i,
    {
        let c = t[i] as char;
        if c == '"' || c == '\\' {
            push_char(s, '\\');
        }
        push_char(s, c);
        assert(chars.take(i + 1).drop_last() =~= chars.take(i as int));
        assert(s@ =~= old(s)@ + seq!['"'] + escape_all(chars.take(i + 1)));
        i += 1;
    }
    assert(chars.take(t.len() as int) =~= chars);
    push_char(s, '"');
    assert(s@ =~= old(s)@ + quoted(chars));
}

/// Index of the first NUL byte of `b` at or after `i`, or `b.len()` when there
/// is none.
pub open spec fn nul_index(b: Seq<u8>, i: int) -> int
    decreases b.len() - i,
{
    if i >= b.len() {
        b.len() as int
    } else if b[i] == 0 {
        i
    } else {
        nul_index(b, i + 1)
    }
}

/// Length of `b` up to (not including) its first NUL byte.
pub fn nul_prefix_len(b: &[u8]) -> (end: usize)
    ensures
        end == nul_index(b@, 0),
        end <= b@.len(),
{
    let mut i: usize = 0;
    while i < b.len() && b[i] != 0
        invariant
            i <= b@.len(),
            nul_index(b@, i as int) == nul_index(b@, 0),
        decreases b.len() - i,
    {
        i += 1;
    }
    i
}

/// What `String::from_utf8_lossy` makes of `bytes`: the decoded text, with
/// each invalid UTF-8 sequence replaced by U+FFFD.
pub uninterp spec fn utf8_lossy(bytes: Seq<u8>) -> Seq<char>;

/// Decodes `bytes` as UTF-8, replacing invalid sequences with U+FFFD
/// (`String::from_utf8_lossy`). Valid UTF-8 decodes to its characters.
#[verifier::external_body]
pub(crate) fn string_from_utf8_lossy(bytes: &[u8]) -> (s: String)
    ensures
        s@ == utf8_lossy(bytes@),
        valid_utf8(bytes@) ==> s@ == decode_utf8(bytes@),
{
    String::from_utf8_lossy(bytes).into_owned()
}

} // verus!
