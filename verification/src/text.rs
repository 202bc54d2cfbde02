//! Text: classes of characters, runs of them, and decimal numbers.

use vstd::prelude::*;

verus! {

/// A class of characters.
#[derive(Clone, Copy, Debug, PartialEq, Eq, Structural)]
pub enum CharClass {
    /// White space.
    Space,
    /// A decimal digit.
    Digit,
    /// A letter, a digit or an underscore.
    Word,
    /// What a floating-point literal is made of: letters, digits, signs and dots.
    Literal,
    /// A hexadecimal digit.
    Hex,
}

/// White space, as Unicode has it.
pub open spec fn is_space(c: char) -> bool {
    let n = c as u32;
    ||| 0x9 <= n <= 0xd
    ||| n == 0x20
    ||| n == 0x85
    ||| n == 0xa0
    ||| n == 0x1680
    ||| 0x2000 <= n <= 0x200a
    ||| n == 0x2028
    ||| n == 0x2029
    ||| n == 0x202f
    ||| n == 0x205f
    ||| n == 0x3000
}

pub open spec fn is_digit(c: char) -> bool {
    0x30 <= c as u32 <= 0x39
}

pub open spec fn is_letter(c: char) -> bool {
    let n = c as u32;
    0x41 <= n <= 0x5a || 0x61 <= n <= 0x7a
}

/// The character is of the class.
pub open spec fn in_class(class: CharClass, c: char) -> bool {
    match class {
        CharClass::Space => is_space(c),
        CharClass::Digit => is_digit(c),
        CharClass::Word => is_letter(c) || is_digit(c) || c == '_',
        CharClass::Literal => is_letter(c) || is_digit(c) || c == '+' || c == '-' || c == '.',
        CharClass::Hex => is_hex(c),
    }
}

pub open spec fn is_hex(c: char) -> bool {
    let n = c as u32;
    is_digit(c) || 0x41 <= n <= 0x46 || 0x61 <= n <= 0x66
}

/// Whether the character is of the class.
pub fn belongs(class: CharClass, c: char) -> (r: bool)
    ensures
        r == in_class(class, c),
{
    let n: u32 = c as u32;
    let digit: bool = 0x30 <= n && n <= 0x39;
    let letter: bool = (0x41 <= n && n <= 0x5a) || (0x61 <= n && n <= 0x7a);
    match class {
        CharClass::Space => {
            (0x9 <= n && n <= 0xd) || n == 0x20 || n == 0x85 || n == 0xa0 || n == 0x1680 || (0x2000
                <= n && n <= 0x200a) || n == 0x2028 || n == 0x2029 || n == 0x202f || n == 0x205f
                || n == 0x3000
        },
        CharClass::Digit => digit,
        CharClass::Word => letter || digit || c == '_',
        CharClass::Literal => letter || digit || c == '+' || c == '-' || c == '.',
        CharClass::Hex => digit || (0x41 <= n && n <= 0x46) || (0x61 <= n && n <= 0x66),
    }
}

/// Where the run of characters of a class that begins at `pos` ends.
pub open spec fn run_end(text: Seq<char>, pos: int, class: CharClass) -> int
    decreases text.len() - pos,
{
    if 0 <= pos < text.len() && in_class(class, text[pos]) {
        run_end(text, pos + 1, class)
    } else {
        pos
    }
}

/// Where the white space that begins at `pos` ends.
pub open spec fn spaces_end(text: Seq<char>, pos: int) -> int {
    run_end(text, pos, CharClass::Space)
}

pub proof fn lemma_run_end(text: Seq<char>, pos: int, class: CharClass)
    requires
        0 <= pos <= text.len(),
    ensures
        pos <= run_end(text, pos, class) <= text.len(),
        forall|i: int|
            pos <= i < run_end(text, pos, class) ==> in_class(class, #[trigger] text[i]),
        run_end(text, pos, class) < text.len() ==> !in_class(
            class,
            text[run_end(text, pos, class)],
        ),
    decreases text.len() - pos,
{
    if pos < text.len() && in_class(class, text[pos]) {
        lemma_run_end(text, pos + 1, class);
    }
}

/// A run ends where a character is not of the class, or the text ends.
pub proof fn lemma_run_ends_at(text: Seq<char>, pos: int, end: int, class: CharClass)
    requires
        0 <= pos <= end <= text.len(),
        forall|i: int| pos <= i < end ==> in_class(class, #[trigger] text[i]),
        end < text.len() ==> !in_class(class, text[end]),
    ensures
        run_end(text, pos, class) == end,
    decreases end - pos,
{
    if pos < end {
        assert(in_class(class, text[pos]));
        lemma_run_ends_at(text, pos + 1, end, class);
    }
}

/// Where the run of characters of a class that begins at `pos` ends.
pub fn find_run_end(text: &[char], pos: usize, class: CharClass) -> (r: usize)
    requires
        pos <= text@.len(),
    ensures
        r == run_end(text@, pos as int, class),
        pos <= r <= text@.len(),
{
    let len: usize = text.len();
    let mut end: usize = pos;
    while end < len && belongs(class, text[end])
        invariant
            pos <= end <= len == text@.len(),
            run_end(text@, end as int, class) == run_end(text@, pos as int, class),
        decreases len - end,
    {
        end += 1;
    }
    end
}

/// A piece of text stands at `pos`.
pub open spec fn occurs_at(text: Seq<char>, pos: int, piece: Seq<char>) -> bool {
    &&& 0 <= pos
    &&& pos + piece.len() <= text.len()
    &&& forall|i: int| 0 <= i < piece.len() ==> #[trigger] text[pos + i] == piece[i]
}

/// Parts of a piece stand one after the other.
pub proof fn lemma_occurs_split(text: Seq<char>, pos: int, a: Seq<char>, b: Seq<char>)
    requires
        occurs_at(text, pos, a + b),
    ensures
        occurs_at(text, pos, a),
        occurs_at(text, pos + a.len(), b),
{
    let whole = a + b;
    assert forall|i: int| 0 <= i < a.len() implies #[trigger] text[pos + i] == a[i] by {
        assert(text[pos + i] == whole[i]);
    }
    assert forall|i: int| 0 <= i < b.len() implies #[trigger] text[pos + a.len() + i] == b[i] by {
        assert(text[pos + (a.len() + i)] == whole[a.len() + i]);
    }
}

/// Whether a piece of text stands at `pos`.
pub fn stands_at(text: &[char], pos: usize, piece: &[char]) -> (r: bool)
    requires
        pos <= text@.len(),
    ensures
        r == occurs_at(text@, pos as int, piece@),
{
    let len: usize = text.len();
    let n: usize = piece.len();
    if n > len - pos {
        return false;
    }
    let mut i: usize = 0;
    while i < n
        invariant
            i <= n == piece@.len(),
            pos + n <= len == text@.len(),
            forall|k: int| 0 <= k < i ==> #[trigger] text@[pos + k] == piece@[k],
        decreases n - i,
    {
        if text[pos + i] != piece[i] {
            assert(text@[pos + i] != piece@[i as int]);
            return false;
        }
        i += 1;
    }
    true
}

/// Whether a piece of text stands at `pos`.
pub fn stands_at_str(text: &[char], pos: usize, piece: &str) -> (r: bool)
    requires
        pos <= text@.len(),
    ensures
        r == occurs_at(text@, pos as int, piece@),
{
    let len: usize = text.len();
    let n: usize = piece.unicode_len();
    if n > len - pos {
        return false;
    }
    let mut i: usize = 0;
    while i < n
        invariant
            i <= n == piece@.len(),
            pos + n <= len == text@.len(),
            forall|k: int| 0 <= k < i ==> #[trigger] text@[pos + k] == piece@[k],
        decreases n - i,
    {
        if text[pos + i] != piece.get_char(i) {
            assert(text@[pos + i] != piece@[i as int]);
            return false;
        }
        i += 1;
    }
    true
}

/// Appends text.
pub fn push_str(out: &mut Vec<char>, piece: &str)
    ensures
        final(out)@ == old(out)@ + piece@,
{
    let ghost before = out@;
    let n: usize = piece.unicode_len();
    let mut i: usize = 0;
    assert(before + piece@.take(0) =~= before);
    while i < n
        invariant
            i <= n == piece@.len(),
            out@ == before + piece@.take(i as int),
        decreases n - i,
    {
        out.push(piece.get_char(i));
        i += 1;
        assert(piece@.take(i as int) =~= piece@.take(i - 1).push(piece@[i - 1]));
        assert(out@ =~= before + piece@.take(i as int));
    }
    assert(piece@.take(n as int) =~= piece@);
}

/// Pieces of text, with a separator between them.
pub open spec fn joined(pieces: Seq<Seq<char>>, separator: Seq<char>) -> Seq<char>
    decreases pieces.len(),
{
    if pieces.len() == 0 {
        Seq::empty()
    } else if pieces.len() == 1 {
        pieces[0]
    } else {
        pieces[0] + separator + joined(pieces.skip(1), separator)
    }
}

/// A further piece stands after a separator.
pub proof fn lemma_joined_push(pieces: Seq<Seq<char>>, separator: Seq<char>, last: Seq<char>)
    ensures
        joined(pieces.push(last), separator) == if pieces.len() == 0 {
            last
        } else {
            joined(pieces, separator) + separator + last
        },
    decreases pieces.len(),
{
    let all = pieces.push(last);
    if pieces.len() > 0 {
        assert(all.skip(1) =~= pieces.skip(1).push(last));
        lemma_joined_push(pieces.skip(1), separator, last);
        assert(joined(all, separator) == pieces[0] + separator + joined(all.skip(1), separator));
        if pieces.len() == 1 {
            assert(joined(all, separator) =~= joined(pieces, separator) + separator + last);
        } else {
            assert(joined(all, separator) =~= joined(pieces, separator) + separator + last);
        }
    }
}

/// Appends text.
pub fn push_text(out: &mut Vec<char>, piece: &[char])
    ensures
        final(out)@ == old(out)@ + piece@,
{
    let ghost before = out@;
    let n: usize = piece.len();
    let mut i: usize = 0;
    assert(before + piece@.take(0) =~= before);
    while i < n
        invariant
            i <= n == piece@.len(),
            out@ == before + piece@.take(i as int),
        decreases n - i,
    {
        out.push(piece[i]);
        i += 1;
        assert(piece@.take(i as int) =~= piece@.take(i - 1).push(piece@[i - 1]));
        assert(out@ =~= before + piece@.take(i as int));
    }
    assert(piece@.take(n as int) =~= piece@);
}

/// A letter or an underscore, and further letters, digits and underscores.
pub open spec fn is_identifier(name: Seq<char>) -> bool {
    &&& name.len() > 0
    &&& !is_digit(name[0])
    &&& forall|i: int| 0 <= i < name.len() ==> in_class(CharClass::Word, #[trigger] name[i])
}

// Decimal numbers
/// The digit that stands for a number below ten.
pub open spec fn digit_char(n: nat) -> char {
    (0x30 + n) as char
}

pub open spec fn digit_value(c: char) -> nat {
    (c as u32 - 0x30) as nat
}

/// The number that digits stand for.
pub open spec fn digits_value(digits: Seq<char>) -> nat
    decreases digits.len(),
{
    if digits.len() == 0 {
        0
    } else {
        10 * digits_value(digits.drop_last()) + digit_value(digits.last())
    }
}

/// The decimal digits of a number.
pub open spec fn decimal(n: nat) -> Seq<char>
    decreases n,
{
    if n < 10 {
        seq![digit_char(n)]
    } else {
        decimal(n / 10).push(digit_char(n % 10))
    }
}

/// All characters are digits.
pub open spec fn all_digits(text: Seq<char>) -> bool {
    forall|i: int| 0 <= i < text.len() ==> is_digit(#[trigger] text[i])
}

/// The digits of a number stand for it.
pub proof fn law_decimal(n: nat)
    ensures
        digits_value(decimal(n)) == n,
        all_digits(decimal(n)),
        decimal(n).len() > 0,
    decreases n,
{
    if n < 10 {
        let digits = decimal(n);
        assert(digits.drop_last() =~= Seq::<char>::empty());
        assert(digits_value(digits.drop_last()) == 0);
    } else {
        law_decimal(n / 10);
        let digits = decimal(n);
        assert(digits.drop_last() =~= decimal(n / 10));
        assert forall|i: int| 0 <= i < digits.len() implies is_digit(#[trigger] digits[i]) by {
            if i < digits.len() - 1 {
                assert(digits[i] == decimal(n / 10)[i]);
            }
        }
    }
}

/// The digit that stands for a number below ten.
pub fn make_digit(n: u8) -> (r: char)
    requires
        n < 10,
    ensures
        r == digit_char(n as nat),
{
    (0x30u8 + n) as char
}

/// The decimal digits of a number.
pub fn make_decimal(n: usize) -> (r: Vec<char>)
    ensures
        r@ == decimal(n as nat),
    decreases n,
{
    if n < 10 {
        let mut digits: Vec<char> = Vec::new();
        digits.push(make_digit(n as u8));
        assert(digits@ =~= decimal(n as nat));
        digits
    } else {
        let mut digits: Vec<char> = make_decimal(n / 10);
        digits.push(make_digit((n % 10) as u8));
        digits
    }
}

/// The number that the digits from `start` to `end` stand for, if it is no larger than `max`.
pub fn read_digits(text: &[char], start: usize, end: usize, max: usize) -> (r: Option<usize>)
    requires
        start <= end <= text@.len(),
        all_digits(text@.subrange(start as int, end as int)),
    ensures
        match r {
            Some(n) => n == digits_value(text@.subrange(start as int, end as int)) && n <= max,
            None => digits_value(text@.subrange(start as int, end as int)) > max,
        },
{
    let ghost digits = text@.subrange(start as int, end as int);
    let len: usize = text.len();
    let mut n: usize = 0;
    let mut i: usize = start;
    assert(digits.take(0) =~= Seq::<char>::empty());
    while i < end
        invariant
            start <= i <= end <= len == text@.len(),
            digits == text@.subrange(start as int, end as int),
            all_digits(digits),
            n == digits_value(digits.take(i - start)),
            n <= max,
        decreases end - i,
    {
        proof {
            let now = digits.take(i - start + 1);
            assert(now.drop_last() =~= digits.take(i - start));
            assert(is_digit(digits[i - start]));
        }
        let digit: usize = (text[i] as u32 - 0x30) as usize;
        if n > max / 10 || (n == max / 10 && digit > max % 10) {
            proof {
                lemma_digits_value_grows(digits, i - start + 1);
            }
            return None;
        }
        n = n * 10 + digit;
        i += 1;
    }
    assert(digits.take(end - start) =~= digits);
    Some(n)
}

/// Further digits make a number no smaller.
proof fn lemma_digits_value_grows(digits: Seq<char>, k: int)
    requires
        0 <= k <= digits.len(),
    ensures
        digits_value(digits.take(k)) <= digits_value(digits),
    decreases digits.len() - k,
{
    if k < digits.len() {
        lemma_digits_value_grows(digits, k + 1);
        assert(digits.take(k + 1).drop_last() =~= digits.take(k));
    } else {
        assert(digits.take(k) =~= digits);
    }
}

} // verus!
