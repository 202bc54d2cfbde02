//! Reading of text: tokens, white space and numbers.

use crate::memref::attributes::ParseErr;
use crate::text;
use crate::text::CharClass;
use vstd::prelude::*;

verus! {

/// A plus or minus sign.
pub open spec fn is_sign(c: char) -> bool {
    c == '+' || c == '-'
}

/// The digits of a literal.
pub open spec fn literal_digits(literal: Seq<char>) -> Seq<char> {
    if is_sign(literal[0]) {
        literal.skip(1)
    } else {
        literal
    }
}

/// Where the integer literal that begins at `pos` ends, if there is one.
pub open spec fn int_literal_end(t: Seq<char>, pos: int) -> Option<int> {
    let start = if pos < t.len() && is_sign(t[pos]) {
        pos + 1
    } else {
        pos
    };
    let end = text::run_end(t, start, CharClass::Digit);
    if end > start {
        Some(end)
    } else {
        None
    }
}

/// Where the text `piece` ends, if it stands at `pos`.
pub open spec fn token_at(t: Seq<char>, pos: int, piece: Seq<char>) -> Result<int, ParseErr> {
    if text::occurs_at(t, pos, piece) {
        Ok(pos + piece.len())
    } else {
        Err(ParseErr::Unexpected { at: pos as usize })
    }
}

/// Where the text `piece` ends, if it stands at `pos`, white space around it included.
pub open spec fn spaced_at(t: Seq<char>, pos: int, piece: Seq<char>) -> Result<int, ParseErr> {
    match token_at(t, text::spaces_end(t, pos), piece) {
        Ok(end) => Ok(text::spaces_end(t, end)),
        Err(error) => Err(error),
    }
}

/// The number at `pos`, and where it ends. It has no minus sign, and is no larger than `max`.
pub open spec fn number_at(t: Seq<char>, pos: int, max: nat) -> Result<(nat, int), ParseErr> {
    match int_literal_end(t, pos) {
        None => Err(ParseErr::Unexpected { at: pos as usize }),
        Some(end) => {
            let n = text::digits_value(literal_digits(t.subrange(pos, end)));
            if t[pos] == '-' || n > max {
                Err(ParseErr::InvalidNumber { at: pos as usize })
            } else {
                Ok((n, end))
            }
        },
    }
}

/// A number ends behind where it begins.
pub proof fn lemma_number_end(t: Seq<char>, pos: int)
    requires
        0 <= pos <= t.len(),
    ensures
        int_literal_end(t, pos) matches Some(end) ==> pos < end <= t.len(),
{
    text::lemma_run_end(t, pos, CharClass::Digit);
    if pos < t.len() {
        text::lemma_run_end(t, pos + 1, CharClass::Digit);
    }
}

/// White space ends behind where it begins.
pub proof fn lemma_spaces_end(t: Seq<char>, pos: int)
    requires
        0 <= pos <= t.len(),
    ensures
        pos <= text::spaces_end(t, pos) <= t.len(),
        text::spaces_end(t, text::spaces_end(t, pos)) == text::spaces_end(t, pos),
{
    text::lemma_run_end(t, pos, CharClass::Space);
}

/// Where the white space that begins at `pos` ends.
pub fn skip_spaces(t: &[char], pos: usize) -> (r: usize)
    requires
        pos <= t@.len(),
    ensures
        r == text::spaces_end(t@, pos as int),
        pos <= r <= t@.len(),
{
    text::find_run_end(t, pos, CharClass::Space)
}

/// Where the text `piece` ends, if it stands at `pos`.
pub fn parse_token(t: &[char], pos: usize, piece: &str) -> (r: Result<usize, ParseErr>)
    requires
        pos <= t@.len(),
    ensures
        match r {
            Ok(end) => token_at(t@, pos as int, piece@) == Ok::<int, ParseErr>(end as int) && pos
                <= end <= t@.len(),
            Err(error) => token_at(t@, pos as int, piece@) == Err::<int, ParseErr>(error),
        },
{
    if text::stands_at_str(t, pos, piece) {
        let ghost len = t.len();
        let n: usize = piece.unicode_len();
        Ok(pos + n)
    } else {
        Err(ParseErr::Unexpected { at: pos })
    }
}

/// Where the text `piece` ends, if it stands at `pos`, white space around it included.
pub fn parse_spaced(t: &[char], pos: usize, piece: &str) -> (r: Result<usize, ParseErr>)
    requires
        pos <= t@.len(),
    ensures
        match r {
            Ok(end) => spaced_at(t@, pos as int, piece@) == Ok::<int, ParseErr>(end as int) && pos
                <= end <= t@.len(),
            Err(error) => spaced_at(t@, pos as int, piece@) == Err::<int, ParseErr>(error),
        },
{
    match parse_token(t, skip_spaces(t, pos), piece) {
        Ok(end) => Ok(skip_spaces(t, end)),
        Err(error) => Err(error),
    }
}

/// The number at `pos`, and where it ends.
pub fn parse_number(t: &[char], pos: usize, max: usize) -> (r: Result<(usize, usize), ParseErr>)
    requires
        pos <= t@.len(),
    ensures
        match r {
            Ok((n, end)) => number_at(t@, pos as int, max as nat) == Ok::<(nat, int), ParseErr>(
                (n as nat, end as int),
            ) && pos < end <= t@.len() && n <= max,
            Err(error) => number_at(t@, pos as int, max as nat) == Err::<(nat, int), ParseErr>(
                error,
            ),
        },
{
    let len: usize = t.len();
    let start: usize = if pos < len && (t[pos] == '+' || t[pos] == '-') {
        pos + 1
    } else {
        pos
    };
    let end: usize = text::find_run_end(t, start, CharClass::Digit);
    if end == start {
        return Err(ParseErr::Unexpected { at: pos });
    }
    proof {
        text::lemma_run_end(t@, start as int, CharClass::Digit);
        let digits = t@.subrange(start as int, end as int);
        assert(text::in_class(CharClass::Digit, t@[start as int]));
        assert(literal_digits(t@.subrange(pos as int, end as int)) =~= digits);
        assert(text::all_digits(digits)) by {
            assert forall|i: int| 0 <= i < digits.len() implies text::is_digit(
                #[trigger] digits[i],
            ) by {
                assert(text::in_class(CharClass::Digit, t@[start + i]));
            }
        }
    }
    if t[pos] == '-' {
        return Err(ParseErr::InvalidNumber { at: pos });
    }
    match text::read_digits(t, start, end, max) {
        Some(n) => Ok((n, end)),
        None => Err(ParseErr::InvalidNumber { at: pos }),
    }
}

/// Whether the text from `start` to `end` is the given one.
pub fn spells(t: &[char], start: usize, end: usize, piece: &str) -> (r: bool)
    requires
        start <= end <= t@.len(),
    ensures
        r == (t@.subrange(start as int, end as int) == piece@),
{
    let same: bool = end - start == piece.unicode_len() && text::stands_at_str(t, start, piece);
    proof {
        let name = t@.subrange(start as int, end as int);
        if same {
            assert forall|i: int| 0 <= i < name.len() implies name[i] == piece@[i] by {
                assert(t@[start + i] == piece@[i]);
            }
            assert(name =~= piece@);
        } else if name == piece@ {
            assert forall|i: int| 0 <= i < piece@.len() implies #[trigger] t@[start + i]
                == piece@[i] by {
                assert(name[i] == piece@[i]);
            }
            assert(text::occurs_at(t@, start as int, piece@));
        }
    }
    same
}

/// White space ends at the first character that is none.
pub proof fn lemma_spaces(t: Seq<char>, pos: int, end: int)
    requires
        0 <= pos <= end <= t.len(),
        forall|i: int| pos <= i < end ==> text::is_space(#[trigger] t[i]),
        end < t.len() ==> !text::is_space(t[end]),
    ensures
        text::spaces_end(t, pos) == end,
{
    text::lemma_run_ends_at(t, pos, end, CharClass::Space);
}

/// A token with white space around it is read up to what comes next.
pub proof fn lemma_spaced(t: Seq<char>, pos: int, start: int, piece: Seq<char>, end: int)
    requires
        0 <= pos <= start,
        forall|i: int| pos <= i < start ==> text::is_space(#[trigger] t[i]),
        text::occurs_at(t, start, piece),
        piece.len() > 0,
        !text::is_space(piece[0]),
        start + piece.len() <= end <= t.len(),
        forall|i: int| start + piece.len() <= i < end ==> text::is_space(#[trigger] t[i]),
        end < t.len() ==> !text::is_space(t[end]),
    ensures
        spaced_at(t, pos, piece) == Ok::<int, ParseErr>(end),
{
    assert(t[start + 0] == piece[0]);
    lemma_spaces(t, pos, start);
    lemma_spaces(t, start + piece.len(), end);
}

/// Decimal digits are read as the number that they stand for.
pub proof fn lemma_number(t: Seq<char>, pos: int, n: nat, max: nat)
    requires
        text::occurs_at(t, pos, text::decimal(n)),
        ({
            let end = pos + text::decimal(n).len();
            end < t.len() ==> !text::is_digit(t[end])
        }),
        n <= max,
    ensures
        number_at(t, pos, max) == Ok::<(nat, int), ParseErr>(
            (n, pos + text::decimal(n).len()),
        ),
        text::is_digit(t[pos]),
        pos < t.len(),
{
    let digits = text::decimal(n);
    let end = pos + digits.len();
    text::law_decimal(n);
    assert forall|i: int| pos <= i < end implies text::in_class(
        CharClass::Digit,
        #[trigger] t[i],
    ) by {
        assert(t[pos + (i - pos)] == digits[i - pos]);
        assert(text::is_digit(digits[i - pos]));
    }
    assert(text::in_class(CharClass::Digit, t[pos]));
    text::lemma_run_ends_at(t, pos, end, CharClass::Digit);
    let literal = t.subrange(pos, end);
    assert forall|i: int| 0 <= i < digits.len() implies literal[i] == digits[i] by {
        assert(t[pos + i] == digits[i]);
    }
    assert(literal =~= digits);
}

} // verus!
