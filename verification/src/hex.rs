//! Hexadecimal text for datagrams: decoding user-typed hex and rendering bytes
//! as space-separated lower-case hex.

use vstd::prelude::*;

use crate::text::{hex2, hex_digit, push_char, push_hex2};

verus! {

/// Errors from [`decode_hex`].
#[derive(Debug, Clone, Copy, PartialEq, Eq, Structural)]
pub enum HexError {
    /// The hex text, whitespace removed, has an odd number of digits.
    OddLength,
    /// A digit pair is not a hexadecimal number.
    InvalidDigit,
}

/// Unicode `White_Space` characters (what `char::is_whitespace` accepts).
pub open spec fn is_white_space(c: char) -> bool {
    let v = c as u32;
    ||| 0x09 <= v <= 0x0d
    ||| v == 0x20
    ||| v == 0x85
    ||| v == 0xa0
    ||| v == 0x1680
    ||| 0x2000 <= v <= 0x200a
    ||| v == 0x2028
    ||| v == 0x2029
    ||| v == 0x202f
    ||| v == 0x205f
    ||| v == 0x3000
}

/// `s` with every whitespace character removed.
pub open spec fn strip_white_space(s: Seq<char>) -> Seq<char>
    decreases s.len(),
{
    if s.len() == 0 {
        Seq::empty()
    } else if is_white_space(s.last()) {
        strip_white_space(s.drop_last())
    } else {
        strip_white_space(s.drop_last()).push(s.last())
    }
}

/// Number of bytes of the UTF-8 encoding of `c`.
pub open spec fn utf8_width(c: char) -> nat {
    if (c as u32) < 0x80 {
        1
    } else if (c as u32) < 0x800 {
        2
    } else if (c as u32) < 0x10000 {
        3
    } else {
        4
    }
}

/// Number of bytes of the UTF-8 encoding of `s`.
pub open spec fn utf8_size(s: Seq<char>) -> nat
    decreases s.len(),
{
    if s.len() == 0 {
        0
    } else {
        utf8_size(s.drop_last()) + utf8_width(s.last())
    }
}

/// Value of a hexadecimal digit.
pub open spec fn hex_value(c: char) -> Option<u8> {
    if '0' <= c <= '9' {
        Some(((c as u32) - 48) as u8)
    } else if 'a' <= c <= 'f' {
        Some(((c as u32) - 87) as u8)
    } else if 'A' <= c <= 'F' {
        Some(((c as u32) - 55) as u8)
    } else {
        None
    }
}

/// Value of a two-digit hexadecimal number.
pub open spec fn pair_value(c1: char, c2: char) -> Option<u8> {
    match (hex_value(c1), hex_value(c2)) {
        (Some(h), Some(l)) => Some((h * 16 + l) as u8),
        _ => None,
    }
}

/// Bytes of consecutive character pairs of `s`, or the first bad pair's error.
pub open spec fn pairs_of(s: Seq<char>) -> Result<Seq<u8>, HexError>
    decreases s.len(),
{
    if s.len() < 2 {
        Ok(Seq::empty())
    } else {
        match pair_value(s[0], s[1]) {
            None => Err(HexError::InvalidDigit),
            Some(v) => match pairs_of(s.skip(2)) {
                Ok(rest) => Ok(seq![v] + rest),
                Err(e) => Err(e),
            },
        }
    }
}

/// All characters are ASCII.
pub open spec fn all_ascii(s: Seq<char>) -> bool {
    forall|i: int| 0 <= i < s.len() ==> (s[i] as u32) < 0x80
}

/// What decoding `s` yields: whitespace is ignored; the rest must be an even
/// number of bytes, all of them pairs of hex digits.
pub open spec fn decode_hex_of(s: Seq<char>) -> Result<Seq<u8>, HexError> {
    let c = strip_white_space(s);
    if utf8_size(c) % 2 != 0 {
        Err(HexError::OddLength)
    } else if !all_ascii(c) {
        Err(HexError::InvalidDigit)
    } else {
        pairs_of(c)
    }
}

/// `bytes` as space-separated lower-case hex pairs.
pub open spec fn encode_hex_of(bytes: Seq<u8>) -> Seq<char>
    decreases bytes.len(),
{
    if bytes.len() == 0 {
        Seq::empty()
    } else if bytes.len() == 1 {
        hex2(bytes[0] as int)
    } else {
        encode_hex_of(bytes.drop_last()) + seq![' '] + hex2(bytes.last() as int)
    }
}

/// ASCII text has one byte per character.
proof fn lemma_ascii_size(s: Seq<char>)
    requires
        all_ascii(s),
    ensures
        utf8_size(s) == s.len(),
    decreases s.len(),
{
    if s.len() > 0 {
        assert(all_ascii(s.drop_last()));
        lemma_ascii_size(s.drop_last());
    }
}

/// Whether `c` is a Unicode whitespace character.
pub fn is_white_space_char(c: char) -> (b: bool)
    ensures
        b == is_white_space(c),
{
    let v = c as u32;
    (0x09 <= v && v <= 0x0d) || v == 0x20 || v == 0x85 || v == 0xa0 || v == 0x1680 || (0x2000 <= v
        && v <= 0x200a) || v == 0x2028 || v == 0x2029 || v == 0x202f || v == 0x205f || v == 0x3000
}

/// Value of a hexadecimal digit.
pub fn hex_digit_value(c: char) -> (r: Option<u8>)
    ensures
        r == hex_value(c),
{
    let v = c as u32;
    if 48 <= v && v <= 57 {
        Some((v - 48) as u8)
    } else if 97 <= v && v <= 102 {
        Some((v - 87) as u8)
    } else if 65 <= v && v <= 70 {
        Some((v - 55) as u8)
    } else {
        None
    }
}

/// Value of a two-character hexadecimal number.
pub fn hex_pair_value(c1: char, c2: char) -> (r: Option<u8>)
    ensures
        r == pair_value(c1, c2),
{
    match (hex_digit_value(c1), hex_digit_value(c2)) {
        (Some(h), Some(l)) => Some(h * 16 + l),
        _ => None,
    }
}

/// Decodes a hex string (whitespace ignored) into bytes.
pub fn decode_hex(s: &str) -> (r: Result<Vec<u8>, HexError>)
    ensures
        match r {
            Ok(decoded) => decode_hex_of(s@) == Ok::<_, HexError>(decoded@),
            Err(e) => decode_hex_of(s@) == Err::<Seq<u8>, _>(e),
        },
{
    let mut clean: Vec<char> = Vec::new();
    let mut odd = false;
    let mut ascii = true;
    let ghost mut seen: Seq<char> = Seq::empty();
    for c in it: s.chars()
        invariant
            it.seq() == s@,
            seen == it.seq().take(it.index() as int),
            clean@ == strip_white_space(seen),
            odd == (utf8_size(clean@) % 2 == 1),
            ascii == all_ascii(clean@),
    {
        let ghost before = clean@;
        let ghost old_seen = seen;
        proof {
            assert(it.seq().take(it.index() + 1) =~= seen.push(c));
            seen = seen.push(c);
            assert(seen.drop_last() =~= old_seen);
            assert(seen.last() == c);
        }
        if !is_white_space_char(c) {
            clean.push(c);
            let v = c as u32;
            if v < 0x80 || (0x800 <= v && v < 0x10000) {
                odd = !odd;
            }
            if v >= 0x80 {
                ascii = false;
            }
            assert(clean@.drop_last() =~= before);
        }
    }
    assert(seen =~= s@);
    if odd {
        return Err(HexError::OddLength);
    }
    if !ascii {
        return Err(HexError::InvalidDigit);
    }
    proof {
        lemma_ascii_size(clean@);
    }
    let n = clean.len();
    let mut out: Vec<u8> = Vec::new();
    assert(clean@.skip(0) =~= clean@);
    proof {
        if let Ok(rest) = pairs_of(clean@) {
            assert(out@ + rest =~= rest);
        }
    }
    let mut i: usize = 0;
    while i < n
        invariant
            n == clean@.len(),
            n % 2 == 0,
            i % 2 == 0,
            decode_hex_of(s@) == pairs_of(clean@),
            i <= n,
            pairs_of(clean@) == match pairs_of(clean@.skip(i as int)) {
                Ok(rest) => Ok(out@ + rest),
                Err(e) => Err(e),
            },
        decreases n - i,
    {
        let ghost tail = clean@.skip(i as int);
        assert(tail.skip(2) =~= clean@.skip(i + 2));
        assert(tail.len() >= 2 && tail[0] == clean@[i as int] && tail[1] == clean@[i + 1]);
        match hex_pair_value(clean[i], clean[i + 1]) {
            Some(v) => {
                assert(out@.push(v) + pairs_of(clean@.skip(i + 2))->Ok_0 =~= out@ + (seq![v]
                    + pairs_of(clean@.skip(i + 2))->Ok_0));
                out.push(v);
            },
            None => {
                return Err(HexError::InvalidDigit);
            },
        }
        i += 2;
    }
    assert(out@ + Seq::<u8>::empty() =~= out@);
    Ok(out)
}

/// Formats bytes as space-separated lower-case hex.
pub fn encode_hex(bytes: &[u8]) -> (s: String)
    ensures
        s@ == encode_hex_of(bytes@),
{
    let mut out = String::new();
    let mut i: usize = 0;
    while i < bytes.len()
        invariant
            i <= bytes@.len(),
            out@ == encode_hex_of(bytes@.take(i as int)),
        decreases bytes.len() - i,
    {
        if i > 0 {
            push_char(&mut out, ' ');
        }
        push_hex2(&mut out, bytes[i]);
        assert(bytes@.take(i + 1).drop_last() =~= bytes@.take(i as int));
        i += 1;
    }
    assert(bytes@.take(bytes.len() as int) =~= bytes@);
    out
}

/// The hex digit pairs of `bytes`, with no separators.
pub open spec fn hex_pairs_text(bytes: Seq<u8>) -> Seq<char>
    decreases bytes.len(),
{
    if bytes.len() == 0 {
        Seq::empty()
    } else {
        hex2(bytes[0] as int) + hex_pairs_text(bytes.skip(1))
    }
}

proof fn lemma_hex_pairs_push(b: Seq<u8>, x: u8)
    ensures
        hex_pairs_text(b.push(x)) == hex_pairs_text(b) + hex2(x as int),
        hex_pairs_text(b).len() == 2 * b.len(),
    decreases b.len(),
{
    if b.len() == 0 {
        assert(b.push(x).skip(1) =~= Seq::<u8>::empty());
        assert(hex_pairs_text(Seq::<u8>::empty()) =~= Seq::<char>::empty());
        assert(b.push(x)[0] == x);
        assert(hex_pairs_text(b.push(x)) =~= hex2(x as int));
    } else {
        lemma_hex_pairs_push(b.skip(1), x);
        assert(b.push(x).skip(1) =~= b.skip(1).push(x));
        assert(hex_pairs_text(b.push(x)) =~= hex_pairs_text(b) + hex2(x as int));
    }
}

proof fn lemma_strip_concat(x: Seq<char>, y: Seq<char>)
    ensures
        strip_white_space(x + y) == strip_white_space(x) + strip_white_space(y),
    decreases y.len(),
{
    if y.len() == 0 {
        assert(x + y =~= x);
        assert(strip_white_space(x) + strip_white_space(y) =~= strip_white_space(x));
    } else {
        lemma_strip_concat(x, y.drop_last());
        assert((x + y).drop_last() =~= x + y.drop_last());
        assert(strip_white_space(x + y) =~= strip_white_space(x) + strip_white_space(y));
    }
}

proof fn lemma_hex_digit(d: int)
    requires
        0 <= d < 16,
    ensures
        hex_value(hex_digit(d)) == Some(d as u8),
        !is_white_space(hex_digit(d)),
        (hex_digit(d) as u32) < 0x80,
{
}

proof fn lemma_hex2_text(v: u8)
    ensures
        strip_white_space(hex2(v as int)) == hex2(v as int),
        pair_value(hex2(v as int)[0], hex2(v as int)[1]) == Some(v),
        all_ascii(hex2(v as int)),
{
    lemma_hex_digit((v as int / 16) % 16);
    lemma_hex_digit(v as int % 16);
    let t = hex2(v as int);
    assert(strip_white_space(Seq::<char>::empty()) =~= Seq::<char>::empty());
    assert(t.drop_last().drop_last() =~= Seq::<char>::empty());
    assert(t.drop_last() =~= seq![t[0]]);
    assert(strip_white_space(t.drop_last()) =~= seq![t[0]]);
    assert(strip_white_space(t) =~= t);
}

proof fn lemma_strip_encode(b: Seq<u8>)
    ensures
        strip_white_space(encode_hex_of(b)) == hex_pairs_text(b),
    decreases b.len(),
{
    if b.len() == 0 {
        assert(strip_white_space(encode_hex_of(b)) =~= hex_pairs_text(b));
    } else if b.len() == 1 {
        lemma_hex2_text(b[0]);
        assert(b.skip(1) =~= Seq::<u8>::empty());
        assert(hex_pairs_text(Seq::<u8>::empty()) =~= Seq::<char>::empty());
        assert(hex_pairs_text(b) =~= hex2(b[0] as int));
    } else {
        let front = b.drop_last();
        lemma_strip_encode(front);
        lemma_hex2_text(b.last());
        lemma_strip_concat(encode_hex_of(front), seq![' ']);
        lemma_strip_concat(encode_hex_of(front) + seq![' '], hex2(b.last() as int));
        assert(seq![' '].drop_last() =~= Seq::<char>::empty());
        assert(strip_white_space(Seq::<char>::empty()) =~= Seq::<char>::empty());
        assert(is_white_space(' '));
        assert(strip_white_space(seq![' ']) =~= Seq::<char>::empty());
        lemma_hex_pairs_push(front, b.last());
        assert(front.push(b.last()) =~= b);
        assert(strip_white_space(encode_hex_of(b)) =~= hex_pairs_text(b));
    }
}

proof fn lemma_pairs_of_hex(b: Seq<u8>)
    ensures
        pairs_of(hex_pairs_text(b)) == Ok::<_, HexError>(b),
        all_ascii(hex_pairs_text(b)),
        hex_pairs_text(b).len() == 2 * b.len(),
    decreases b.len(),
{
    if b.len() > 0 {
        lemma_pairs_of_hex(b.skip(1));
        lemma_hex2_text(b[0]);
        let t = hex_pairs_text(b);
        let rest = hex_pairs_text(b.skip(1));
        assert(t =~= hex2(b[0] as int) + rest);
        assert(t.skip(2) =~= rest);
        assert(pairs_of(t) == Ok::<_, HexError>(seq![b[0]] + b.skip(1)));
        assert(t[0] == hex2(b[0] as int)[0] && t[1] == hex2(b[0] as int)[1]);
        assert(seq![b[0]] + b.skip(1) =~= b);
        assert forall|i: int| 0 <= i < t.len() implies (#[trigger] t[i] as u32) < 0x80 by {
            if i >= 2 {
                assert(t[i] == rest[i - 2]);
                assert((rest[i - 2] as u32) < 0x80);
            } else {
                assert(t[i] == hex2(b[0] as int)[i]);
                assert((hex2(b[0] as int)[i] as u32) < 0x80);
            }
        }
    } else {
        assert(hex_pairs_text(b) =~= Seq::<char>::empty());
        assert(b =~= Seq::<u8>::empty());
    }
}

/// Hex text rendered by [`encode_hex`] decodes back to the same bytes:
/// `decode_hex(encode_hex(b)) == Ok(b)`.
pub proof fn lemma_decode_encode(b: Seq<u8>)
    ensures
        decode_hex_of(encode_hex_of(b)) == Ok::<_, HexError>(b),
{
    lemma_strip_encode(b);
    lemma_pairs_of_hex(b);
    lemma_ascii_size(hex_pairs_text(b));
}

/// A character the user may type as a hexadecimal digit: `0`-`9`, `a`-`f`
/// or `A`-`F`.
pub open spec fn is_hex_char(c: char) -> bool {
    let v = c as u32;
    ||| 48 <= v <= 57
    ||| 65 <= v <= 70
    ||| 97 <= v <= 102
}

/// The number a hexadecimal digit character stands for, read off its code:
/// digits count from `0`, letters of either case from ten.
pub open spec fn hex_char_number(c: char) -> int {
    let v = c as u32;
    if v <= 57 {
        v - 48
    } else if v <= 70 {
        v - 55
    } else {
        v - 87
    }
}

proof fn lemma_hex_char_value(c: char)
    requires
        is_hex_char(c),
    ensures
        hex_value(c) == Some(hex_char_number(c) as u8),
{
    let v = c as u32;
    assert(('0' as u32) == 48 && ('9' as u32) == 57);
    assert(('a' as u32) == 97 && ('f' as u32) == 102);
    assert(('A' as u32) == 65 && ('F' as u32) == 70);
    if 48 <= v <= 57 {
        assert('0' <= c <= '9');
    } else if 65 <= v <= 70 {
        assert(!('0' <= c <= '9'));
        assert(!('a' <= c <= 'f'));
        assert('A' <= c <= 'F');
    } else {
        assert(!('0' <= c <= '9'));
        assert('a' <= c <= 'f');
    }
}

proof fn lemma_strip_no_white(s: Seq<char>)
    requires
        forall|i: int| 0 <= i < s.len() ==> is_hex_char(#[trigger] s[i]),
    ensures
        strip_white_space(s) == s,
    decreases s.len(),
{
    if s.len() > 0 {
        assert(is_hex_char(s[s.len() - 1]));
        lemma_strip_no_white(s.drop_last());
        assert(s.drop_last().push(s.last()) =~= s);
    }
}

proof fn lemma_pairs_of_digits(s: Seq<char>)
    requires
        s.len() % 2 == 0,
        forall|i: int| 0 <= i < s.len() ==> is_hex_char(#[trigger] s[i]),
    ensures
        pairs_of(s) == Ok::<_, HexError>(
            Seq::new(
                s.len() / 2,
                |i: int| (hex_char_number(s[2 * i]) * 16 + hex_char_number(s[2 * i + 1])) as u8,
            ),
        ),
    decreases s.len(),
{
    let want = Seq::new(
        s.len() / 2,
        |i: int| (hex_char_number(s[2 * i]) * 16 + hex_char_number(s[2 * i + 1])) as u8,
    );
    if s.len() == 0 {
        assert(want =~= Seq::<u8>::empty());
    } else {
        let t = s.skip(2);
        assert forall|i: int| 0 <= i < t.len() implies is_hex_char(#[trigger] t[i]) by {
            assert(t[i] == s[i + 2]);
        }
        lemma_pairs_of_digits(t);
        assert(is_hex_char(s[0]) && is_hex_char(s[1]));
        let h = hex_char_number(s[0]);
        let l = hex_char_number(s[1]);
        lemma_hex_char_value(s[0]);
        lemma_hex_char_value(s[1]);
        assert(pair_value(s[0], s[1]) == Some((h * 16 + l) as u8));
        let tail = Seq::new(
            t.len() / 2,
            |i: int| (hex_char_number(t[2 * i]) * 16 + hex_char_number(t[2 * i + 1])) as u8,
        );
        assert forall|i: int| 0 <= i < want.len() implies #[trigger] want[i] == (seq![
            (h * 16 + l) as u8,
        ] + tail)[i] by {
            if i > 0 {
                assert(t[2 * (i - 1)] == s[2 * i]);
                assert(t[2 * (i - 1) + 1] == s[2 * i + 1]);
            }
        }
        assert(want =~= seq![(h * 16 + l) as u8] + tail);
    }
}

/// Text made only of hexadecimal digits, in either case, an even number of
/// them, decodes to one byte per pair: the first digit's number times
/// sixteen plus the second's.
pub proof fn lemma_decode_hex_digits(s: Seq<char>)
    requires
        s.len() % 2 == 0,
        forall|i: int| 0 <= i < s.len() ==> is_hex_char(#[trigger] s[i]),
    ensures
        decode_hex_of(s) == Ok::<_, HexError>(
            Seq::new(
                s.len() / 2,
                |i: int| (hex_char_number(s[2 * i]) * 16 + hex_char_number(s[2 * i + 1])) as u8,
            ),
        ),
{
    lemma_strip_no_white(s);
    assert forall|i: int| 0 <= i < s.len() implies (#[trigger] s[i] as u32) < 0x80 by {
        assert(is_hex_char(s[i]));
    }
    lemma_ascii_size(s);
    lemma_pairs_of_digits(s);
}

} // verus!
