//! Bytes as hexadecimal text, and quoted strings.

use crate::memref::attributes::{HexErr, ParseErr};
use crate::text;
use crate::text::CharClass;
use vstd::prelude::*;

verus! {

/// The hexadecimal digit that stands for a number below sixteen.
pub open spec fn hex_char(n: nat) -> char {
    if n < 10 {
        (0x30 + n) as char
    } else {
        (0x37 + n) as char
    }
}

/// The number that a hexadecimal digit stands for.
pub open spec fn hex_value(c: char) -> nat {
    let n = c as u32;
    if text::is_digit(c) {
        (n - 0x30) as nat
    } else if n < 0x61 {
        (n - 0x37) as nat
    } else {
        (n - 0x57) as nat
    }
}

/// Two hexadecimal digits for each byte.
pub open spec fn hex_digits(data: Seq<u8>) -> Seq<char> {
    Seq::new(
        2 * data.len(),
        |i: int|
            hex_char(
                if i % 2 == 0 {
                    (data[i / 2] / 16) as nat
                } else {
                    (data[i / 2] % 16) as nat
                },
            ),
    )
}

/// The text of bytes: `0x` and their digits, in quotes.
pub open spec fn hex_text(data: Seq<u8>) -> Seq<char> {
    "\"0x"@ + hex_digits(data) + "\""@
}

/// The number of bytes that a character takes as UTF-8.
pub open spec fn utf8_len(c: char) -> nat {
    let n = c as u32;
    if n < 0x80 {
        1
    } else if n < 0x800 {
        2
    } else if n < 0x10000 {
        3
    } else {
        4
    }
}

/// The number of bytes that characters take as UTF-8.
pub open spec fn utf8_size(s: Seq<char>) -> nat
    decreases s.len(),
{
    if s.len() == 0 {
        0
    } else {
        utf8_size(s.drop_last()) + utf8_len(s.last())
    }
}

/// The byte that two characters stand for: two digits, or a plus sign and a digit.
pub open spec fn pair_value(a: char, b: char) -> Option<u8> {
    if !text::is_hex(b) {
        None
    } else if text::is_hex(a) {
        Some((16 * hex_value(a) + hex_value(b)) as u8)
    } else if a == '+' {
        Some(hex_value(b) as u8)
    } else {
        None
    }
}

/// Each pair of characters stands for a byte.
pub open spec fn all_pairs(digits: Seq<char>) -> bool {
    &&& digits.len() % 2 == 0
    &&& forall|i: int|
        0 <= i < digits.len() / 2 ==> (#[trigger] pair_value(digits[2 * i], digits[2 * i + 1]))
            is Some
}

/// The bytes that pairs of characters stand for.
pub open spec fn pair_values(digits: Seq<char>) -> Seq<u8> {
    Seq::new(
        digits.len() / 2,
        |i: int| pair_value(digits[2 * i], digits[2 * i + 1])->Some_0,
    )
}

/// The bytes that hexadecimal text stands for.
pub open spec fn decoded(s: Seq<char>) -> Result<Seq<u8>, HexErr> {
    if !text::occurs_at(s, 0, "0x"@) {
        Err(HexErr::MissingPrefix)
    } else if utf8_size(s.skip(2)) % 2 != 0 {
        Err(HexErr::OddDigits)
    } else if !all_pairs(s.skip(2)) {
        Err(HexErr::InvalidDigit)
    } else {
        Ok(pair_values(s.skip(2)))
    }
}

fn make_hex_digit(n: u8) -> (r: char)
    requires
        n < 16,
    ensures
        r == hex_char(n as nat),
{
    if n < 10 {
        (0x30u8 + n) as char
    } else {
        (0x37u8 + n) as char
    }
}

/// Appends the text of bytes.
pub fn push_hex(out: &mut Vec<char>, data: &[u8])
    ensures
        final(out)@ == old(out)@ + hex_text(data@),
{
    text::push_str(out, "\"0x");
    let ghost start = out@;
    let n: usize = data.len();
    let mut i: usize = 0;
    assert(hex_digits(data@.take(0)) =~= Seq::<char>::empty());
    while i < n
        invariant
            i <= n == data@.len(),
            out@ == start + hex_digits(data@.take(i as int)),
        decreases n - i,
    {
        out.push(make_hex_digit(data[i] / 16));
        out.push(make_hex_digit(data[i] % 16));
        i += 1;
        proof {
            let before = hex_digits(data@.take(i - 1));
            let now = hex_digits(data@.take(i as int));
            assert forall|k: int| 0 <= k < now.len() implies now[k] == before.push(
                hex_char((data@[i - 1] / 16) as nat),
            ).push(hex_char((data@[i - 1] % 16) as nat))[k] by {
                if k < before.len() {
                    assert(data@.take(i - 1)[k / 2] == data@.take(i as int)[k / 2]);
                }
            }
            assert(out@ =~= start + now);
        }
    }
    assert(data@.take(n as int) =~= data@);
    text::push_str(out, "\"");
    assert(out@ =~= old(out)@ + hex_text(data@));
}

fn read_hex_digit(c: char) -> (r: u8)
    requires
        text::is_hex(c),
    ensures
        r == hex_value(c),
        r < 16,
{
    let n: u32 = c as u32;
    if n <= 0x39 {
        (n - 0x30) as u8
    } else if n < 0x61 {
        (n - 0x37) as u8
    } else {
        (n - 0x57) as u8
    }
}

fn read_pair(a: char, b: char) -> (r: Option<u8>)
    ensures
        r == pair_value(a, b),
{
    if !text::belongs(CharClass::Hex, b) {
        None
    } else if text::belongs(CharClass::Hex, a) {
        Some(16 * read_hex_digit(a) + read_hex_digit(b))
    } else if a == '+' {
        Some(read_hex_digit(b))
    } else {
        None
    }
}

/// Whether characters take an odd number of bytes as UTF-8.
fn odd_utf8_size(s: &[char], start: usize) -> (r: bool)
    requires
        start <= s@.len(),
    ensures
        r == (utf8_size(s@.skip(start as int)) % 2 != 0),
{
    let ghost rest = s@.skip(start as int);
    let n: usize = s.len();
    let mut odd: bool = false;
    let mut i: usize = start;
    assert(rest.take(0) =~= Seq::<char>::empty());
    while i < n
        invariant
            start <= i <= n == s@.len(),
            rest == s@.skip(start as int),
            odd == (utf8_size(rest.take(i - start)) % 2 != 0),
        decreases n - i,
    {
        let c: u32 = s[i] as u32;
        proof {
            let now = rest.take(i - start + 1);
            assert(now.drop_last() =~= rest.take(i - start));
            assert(now.last() == s@[i as int]);
        }
        if c < 0x80 || (0x800 <= c && c < 0x10000) {
            odd = !odd;
        }
        i += 1;
    }
    assert(rest.take(n - start) =~= rest);
    odd
}

/// The bytes that hexadecimal text stands for.
#[verifier::loop_isolation(false)]
pub fn decode_hex(s: &[char]) -> (r: Result<Vec<u8>, HexErr>)
    ensures
        match r {
            Ok(data) => decoded(s@) == Ok::<Seq<u8>, HexErr>(data@),
            Err(error) => decoded(s@) == Err::<Seq<u8>, HexErr>(error),
        },
{
    if !text::stands_at_str(s, 0, "0x") {
        return Err(HexErr::MissingPrefix);
    }
    proof {
        reveal_strlit("0x");
    }
    if odd_utf8_size(s, 2) {
        return Err(HexErr::OddDigits);
    }
    let ghost digits = s@.skip(2);
    let n: usize = s.len();
    if n % 2 != 0 {
        return Err(HexErr::InvalidDigit);
    }
    let mut data: Vec<u8> = Vec::new();
    let mut i: usize = 2;
    while i < n
        invariant
            2 <= i <= n == s@.len(),
            n % 2 == 0,
            i % 2 == 0,
            digits == s@.skip(2),
            data@.len() == (i - 2) / 2,
            forall|k: int|
                0 <= k < data@.len() ==> #[trigger] pair_value(digits[2 * k], digits[2 * k + 1])
                    == Some(data@[k]),
        decreases n - i,
    {
        let ghost k = (i - 2) / 2;
        assert(digits[2 * k] == s@[i as int] && digits[2 * k + 1] == s@[i + 1]);
        match read_pair(s[i], s[i + 1]) {
            Some(byte) => {
                data.push(byte);
            },
            None => {
                assert(pair_value(digits[2 * k], digits[2 * k + 1]) is None);
                return Err(HexErr::InvalidDigit);
            },
        }
        i += 2;
    }
    assert(data@ =~= pair_values(digits));
    Ok(data)
}

/// The text of bytes stands for them.
pub proof fn law_hex_round_trip(data: Seq<u8>)
    ensures
        decoded("0x"@ + hex_digits(data)) == Ok::<Seq<u8>, HexErr>(data),
{
    reveal_strlit("0x");
    let s = "0x"@ + hex_digits(data);
    let digits = s.skip(2);
    assert(digits =~= hex_digits(data));
    assert(text::occurs_at(s, 0, "0x"@));
    assert forall|i: int| 0 <= i < digits.len() implies text::is_hex(#[trigger] digits[i]) by {
        lemma_hex_char((data[i / 2] / 16) as nat);
        lemma_hex_char((data[i / 2] % 16) as nat);
    }
    lemma_hex_size(digits);
    assert forall|i: int| 0 <= i < digits.len() / 2 implies (#[trigger] pair_value(
        digits[2 * i],
        digits[2 * i + 1],
    )) == Some(data[i]) by {
        lemma_hex_char((data[i] / 16) as nat);
        lemma_hex_char((data[i] % 16) as nat);
        assert((2 * i) / 2 == i && (2 * i + 1) / 2 == i);
        assert(digits[2 * i] == hex_char((data[i] / 16) as nat));
        assert(digits[2 * i + 1] == hex_char((data[i] % 16) as nat));
    }
    assert(pair_values(digits) =~= data);
}

proof fn lemma_hex_char(n: nat)
    requires
        n < 16,
    ensures
        text::is_hex(hex_char(n)),
        hex_value(hex_char(n)) == n,
{
}

/// Hexadecimal digits take one byte each.
proof fn lemma_hex_size(digits: Seq<char>)
    requires
        forall|i: int| 0 <= i < digits.len() ==> text::is_hex(#[trigger] digits[i]),
    ensures
        utf8_size(digits) == digits.len(),
    decreases digits.len(),
{
    if digits.len() > 0 {
        assert(text::is_hex(digits[digits.len() - 1]));
        lemma_hex_size(digits.drop_last());
    }
}

/// Hexadecimal text holds neither quotes nor backslashes.
pub proof fn lemma_hex_is_plain(data: Seq<u8>)
    ensures
        forall|i: int|
            0 <= i < ("0x"@ + hex_digits(data)).len() ==> #[trigger] ("0x"@ + hex_digits(data))[i]
                != '"' && ("0x"@ + hex_digits(data))[i] != '\\',
{
    reveal_strlit("0x");
    let s = "0x"@ + hex_digits(data);
    assert forall|i: int| 0 <= i < s.len() implies #[trigger] s[i] != '"' && s[i] != '\\' by {
        if i >= 2 {
            let k = i - 2;
            assert(s[i] == hex_digits(data)[k]);
            lemma_hex_char((data[k / 2] / 16) as nat);
            lemma_hex_char((data[k / 2] % 16) as nat);
            assert(text::is_hex(s[i]));
        }
    }
}

// Quoted strings
/// The number that hexadecimal digits stand for.
pub open spec fn hex_number(digits: Seq<char>) -> nat
    decreases digits.len(),
{
    if digits.len() == 0 {
        0
    } else {
        16 * hex_number(digits.drop_last()) + hex_value(digits.last())
    }
}

/// The number is that of a character.
pub open spec fn is_scalar(n: nat) -> bool {
    n < 0xd800 || 0xe000 <= n <= 0x10ffff
}

/// `std::char::from_u32`: the character with the given number, if there is one.
#[verifier::external_body]
fn char_of(n: u32) -> (r: Option<char>)
    ensures
        r == if is_scalar(n as nat) {
            Some(n as char)
        } else {
            None
        },
{
    char::from_u32(n)
}

/// The character that stands behind a backslash at `pos`, and where it ends.
pub open spec fn escape_at(t: Seq<char>, pos: int) -> Result<(char, int), ParseErr> {
    if pos + 1 >= t.len() {
        Err(ParseErr::Unexpected { at: (pos + 1) as usize })
    } else {
        let c = t[pos + 1];
        if c == 'u' {
            unicode_at(t, pos)
        } else if c == '\\' || c == '"' || c == '\'' {
            Ok((c, pos + 2))
        } else if c == '0' {
            Ok(('\0', pos + 2))
        } else if c == 'n' {
            Ok(('\n', pos + 2))
        } else if c == 'r' {
            Ok(('\r', pos + 2))
        } else if c == 't' {
            Ok(('\t', pos + 2))
        } else {
            Err(ParseErr::InvalidEscape { at: pos as usize })
        }
    }
}

/// The character whose number stands in braces behind `\u` at `pos`, and where it ends.
pub open spec fn unicode_at(t: Seq<char>, pos: int) -> Result<(char, int), ParseErr> {
    if pos + 2 >= t.len() || t[pos + 2] != '{' {
        Err(ParseErr::Unexpected { at: (pos + 2) as usize })
    } else {
        let end = text::run_end(t, pos + 3, CharClass::Hex);
        let n = hex_number(t.subrange(pos + 3, end));
        if end == pos + 3 || end >= t.len() || t[end] != '}' {
            Err(ParseErr::Unexpected { at: end as usize })
        } else if !is_scalar(n) {
            Err(ParseErr::InvalidEscape { at: pos as usize })
        } else {
            Ok((n as char, end + 1))
        }
    }
}

/// An escaped character ends behind its backslash.
pub proof fn lemma_escape_end(t: Seq<char>, pos: int)
    requires
        0 <= pos <= t.len(),
    ensures
        escape_at(t, pos) matches Ok((_, end)) ==> pos < end <= t.len(),
{
    if pos + 3 <= t.len() {
        text::lemma_run_end(t, pos + 3, CharClass::Hex);
    }
}

/// The characters from `pos` up to a quote, and where the quote ends.
pub open spec fn string_tail(t: Seq<char>, pos: int) -> Result<(Seq<char>, int), ParseErr>
    decreases t.len() - pos,
{
    if pos < 0 || pos >= t.len() {
        Err(ParseErr::Unexpected { at: pos as usize })
    } else if t[pos] == '"' {
        Ok((Seq::empty(), pos + 1))
    } else if t[pos] == '\\' {
        proof {
            lemma_escape_end(t, pos);
        }
        match escape_at(t, pos) {
            Err(error) => Err(error),
            Ok((c, end)) => match string_tail(t, end) {
                Err(error) => Err(error),
                Ok((rest, stop)) => Ok((seq![c] + rest, stop)),
            },
        }
    } else {
        match string_tail(t, pos + 1) {
            Err(error) => Err(error),
            Ok((rest, stop)) => Ok((seq![t[pos]] + rest, stop)),
        }
    }
}

/// The contents of the quoted string at `pos`, and where it ends.
pub open spec fn string_at(t: Seq<char>, pos: int) -> Result<(Seq<char>, int), ParseErr> {
    if pos >= t.len() || t[pos] != '"' {
        Err(ParseErr::Unexpected { at: pos as usize })
    } else {
        string_tail(t, pos + 1)
    }
}

#[verifier::loop_isolation(false)]
fn parse_unicode(t: &[char], pos: usize) -> (r: Result<(char, usize), ParseErr>)
    requires
        pos + 2 <= t@.len(),
    ensures
        match r {
            Ok((c, end)) => unicode_at(t@, pos as int) == Ok::<(char, int), ParseErr>(
                (c, end as int),
            ) && pos < end <= t@.len(),
            Err(error) => unicode_at(t@, pos as int) == Err::<(char, int), ParseErr>(error),
        },
{
    let len: usize = t.len();
    if pos + 2 >= len || t[pos + 2] != '{' {
        return Err(ParseErr::Unexpected { at: pos + 2 });
    }
    let end: usize = text::find_run_end(t, pos + 3, CharClass::Hex);
    if end == pos + 3 || end >= len || t[end] != '}' {
        return Err(ParseErr::Unexpected { at: end });
    }
    proof {
        text::lemma_run_end(t@, pos + 3, CharClass::Hex);
    }
    let ghost digits = t@.subrange(pos + 3, end as int);
    let mut n: u32 = 0;
    let mut i: usize = pos + 3;
    assert(digits.take(0) =~= Seq::<char>::empty());
    while i < end
        invariant
            pos + 3 <= i <= end < len == t@.len(),
            digits == t@.subrange(pos + 3, end as int),
            forall|k: int|
                pos + 3 <= k < end ==> text::in_class(CharClass::Hex, #[trigger] t@[k]),
            n == hex_number(digits.take(i - (pos + 3))),
            n <= 0x10ffff,
        decreases end - i,
    {
        assert(text::in_class(CharClass::Hex, t@[i as int]));
        proof {
            let now = digits.take(i - (pos + 3) + 1);
            assert(now.drop_last() =~= digits.take(i - (pos + 3)));
            assert(now.last() == t@[i as int]);
        }
        n = n * 16 + read_hex_digit(t[i]) as u32;
        i += 1;
        if n > 0x10ffff {
            proof {
                lemma_hex_number_grows(digits, i - (pos + 3));
            }
            return Err(ParseErr::InvalidEscape { at: pos });
        }
    }
    assert(digits.take(end - (pos + 3)) =~= digits);
    match char_of(n) {
        Some(c) => Ok((c, end + 1)),
        None => Err(ParseErr::InvalidEscape { at: pos }),
    }
}

/// Further digits make a number no smaller.
proof fn lemma_hex_number_grows(digits: Seq<char>, k: int)
    requires
        0 <= k <= digits.len(),
    ensures
        hex_number(digits.take(k)) <= hex_number(digits),
    decreases digits.len() - k,
{
    if k < digits.len() {
        lemma_hex_number_grows(digits, k + 1);
        assert(digits.take(k + 1).drop_last() =~= digits.take(k));
    } else {
        assert(digits.take(k) =~= digits);
    }
}

fn parse_escape(t: &[char], pos: usize) -> (r: Result<(char, usize), ParseErr>)
    requires
        pos < t@.len(),
    ensures
        match r {
            Ok((c, end)) => escape_at(t@, pos as int) == Ok::<(char, int), ParseErr>(
                (c, end as int),
            ) && pos < end <= t@.len(),
            Err(error) => escape_at(t@, pos as int) == Err::<(char, int), ParseErr>(error),
        },
{
    let len: usize = t.len();
    if pos + 1 >= len {
        return Err(ParseErr::Unexpected { at: pos + 1 });
    }
    let c: char = t[pos + 1];
    if c == 'u' {
        parse_unicode(t, pos)
    } else if c == '\\' || c == '"' || c == '\'' {
        Ok((c, pos + 2))
    } else if c == '0' {
        Ok(('\0', pos + 2))
    } else if c == 'n' {
        Ok(('\n', pos + 2))
    } else if c == 'r' {
        Ok(('\r', pos + 2))
    } else if c == 't' {
        Ok(('\t', pos + 2))
    } else {
        Err(ParseErr::InvalidEscape { at: pos })
    }
}

/// Characters in front of what a tail of a string gives.
pub open spec fn prepended(
    front: Seq<char>,
    tail: Result<(Seq<char>, int), ParseErr>,
) -> Result<(Seq<char>, int), ParseErr> {
    match tail {
        Err(error) => Err(error),
        Ok((rest, stop)) => Ok((front + rest, stop)),
    }
}

/// The contents of the quoted string at `pos`, and where it ends.
#[verifier::loop_isolation(false)]
pub fn parse_string(t: &[char], pos: usize) -> (r: Result<(Vec<char>, usize), ParseErr>)
    requires
        pos <= t@.len(),
    ensures
        match r {
            Ok((s, end)) => string_at(t@, pos as int) == Ok::<(Seq<char>, int), ParseErr>(
                (s@, end as int),
            ) && pos < end <= t@.len(),
            Err(error) => string_at(t@, pos as int) == Err::<(Seq<char>, int), ParseErr>(error),
        },
{
    let len: usize = t.len();
    if pos >= len || t[pos] != '"' {
        return Err(ParseErr::Unexpected { at: pos });
    }
    let mut s: Vec<char> = Vec::new();
    let mut i: usize = pos + 1;
    proof {
        let tail = string_tail(t@, pos + 1);
        if let Ok((rest, _)) = tail {
            assert(Seq::<char>::empty() + rest =~= rest);
        }
    }
    while i < len && t[i] != '"'
        invariant
            pos < i <= len == t@.len(),
            string_tail(t@, pos + 1) == prepended(s@, string_tail(t@, i as int)),
        decreases len - i,
    {
        let ghost before = s@;
        let ghost tail = string_tail(t@, i as int);
        if t[i] == '\\' {
            match parse_escape(t, i) {
                Ok((c, end)) => {
                    s.push(c);
                    proof {
                        if let Ok((rest, _)) = string_tail(t@, end as int) {
                            assert(before + (seq![c] + rest) =~= s@ + rest);
                        }
                    }
                    i = end;
                },
                Err(error) => {
                    return Err(error);
                },
            }
        } else {
            s.push(t[i]);
            proof {
                if let Ok((rest, _)) = string_tail(t@, i + 1) {
                    assert(before + (seq![t@[i as int]] + rest) =~= s@ + rest);
                }
            }
            i += 1;
        }
    }
    if i >= len {
        return Err(ParseErr::Unexpected { at: i });
    }
    assert(s@ + Seq::<char>::empty() =~= s@);
    Ok((s, i + 1))
}

/// A string without quotes and backslashes is read as it stands.
pub proof fn lemma_plain_string(t: Seq<char>, pos: int, s: Seq<char>)
    requires
        text::occurs_at(t, pos, s + "\""@),
        forall|i: int| 0 <= i < s.len() ==> #[trigger] s[i] != '"' && s[i] != '\\',
    ensures
        string_tail(t, pos) == Ok::<(Seq<char>, int), ParseErr>((s, pos + s.len() + 1)),
    decreases s.len(),
{
    reveal_strlit("\"");
    let whole = s + "\""@;
    assert(t[pos + 0] == whole[0]);
    if s.len() > 0 {
        let rest = s.skip(1);
        let tail = rest + "\""@;
        assert forall|i: int| 0 <= i < tail.len() implies #[trigger] t[pos + 1 + i] == tail[i] by {
            assert(t[pos + (i + 1)] == whole[i + 1]);
        }
        lemma_plain_string(t, pos + 1, rest);
        assert(seq![s[0]] + rest =~= s);
    } else {
        assert(s =~= Seq::<char>::empty());
    }
}

} // verus!
