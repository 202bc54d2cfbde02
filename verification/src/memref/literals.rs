//! How long floating-point literals can be.

use crate::search;
use crate::tokens;
use vstd::prelude::*;

verus! {

/// The number of significant digits up to which a decimal literal is read: a number of more
/// digits can have more bits than can be counted in thirty-two bits with a sign.
pub const MAX_DECIMAL_DIGITS: usize = 646_456_992;

/// The distance up to which the point of a hexadecimal literal can be from its first digit,
/// which is counted in thirty-two bits with a sign.
pub const MAX_POINT_DISTANCE: usize = 0x7fff_ffff;

/// What a character of a literal is.
#[derive(Clone, Copy, Debug, PartialEq, Eq, Structural)]
pub enum Part {
    /// A digit other than zero.
    Significant { hex: bool },
    /// The letter in front of the exponent.
    Marker { hex: bool },
    /// The point.
    Point,
}

pub open spec fn is_part(part: Part, c: char) -> bool {
    match part {
        Part::Significant { hex } => '1' <= c <= '9' || (hex && ('a' <= c <= 'f' || 'A' <= c
            <= 'F')),
        Part::Marker { hex } => if hex {
            c == 'p' || c == 'P'
        } else {
            c == 'e' || c == 'E'
        },
        Part::Point => c == '.',
    }
}

/// The character at each index is such a part.
pub open spec fn part_at(literal: Seq<char>, part: Part) -> spec_fn(int) -> bool {
    |i: int| is_part(part, literal[i])
}

/// The first such part among the first `n` characters.
pub open spec fn first_part(literal: Seq<char>, n: nat, part: Part) -> Option<int> {
    search::first_where(n, part_at(literal, part))
}

/// Where the last such part among the first `n` characters ends.
pub open spec fn last_end(literal: Seq<char>, n: nat, part: Part) -> nat
    decreases n,
{
    if n == 0 || is_part(part, literal[n - 1]) {
        n
    } else {
        last_end(literal, (n - 1) as nat, part)
    }
}

/// The literal is hexadecimal: behind a sign, if there is one, stands `0x`.
pub open spec fn is_hex(literal: Seq<char>) -> bool {
    let start = if literal.len() > 0 && tokens::is_sign(literal[0]) {
        1int
    } else {
        0
    };
    start + 1 < literal.len() && literal[start] == '0' && (literal[start + 1] == 'x'
        || literal[start + 1] == 'X')
}

/// Where the exponent begins, or the literal ends.
pub open spec fn significand_end(literal: Seq<char>, hex: bool) -> nat {
    match first_part(literal, literal.len(), Part::Marker { hex }) {
        Some(i) => i as nat,
        None => literal.len(),
    }
}

/// Where the point stands. Without one it is behind the digits.
pub open spec fn point(literal: Seq<char>, hex: bool) -> int {
    let end = significand_end(literal, hex);
    match first_part(literal, end, Part::Point) {
        Some(i) => i,
        None => end as int,
    }
}

/// The number of decimal digits from the first to the last that is not zero.
pub open spec fn decimal_digits(literal: Seq<char>) -> int {
    let end = significand_end(literal, false);
    match first_part(literal, end, Part::Significant { hex: false }) {
        None => 0,
        Some(first) => {
            let last = last_end(literal, end, Part::Significant { hex: false });
            if first < point(literal, false) < last {
                last - first - 1
            } else {
                last - first
            }
        },
    }
}

/// The literal can be read: room for its digits can be counted in a machine word, and its
/// exponent in thirty-two bits.
pub open spec fn float_fits(literal: Seq<char>) -> bool {
    if is_hex(literal) {
        let end = significand_end(literal, true);
        first_part(literal, end, Part::Significant { hex: true }) matches Some(first) ==> {
            &&& point(literal, true) - first <= MAX_POINT_DISTANCE
            &&& first - point(literal, true) - 1 <= MAX_POINT_DISTANCE
        }
    } else {
        decimal_digits(literal) <= MAX_DECIMAL_DIGITS && 196 * decimal_digits(literal) <= usize::MAX
    }
}

proof fn lemma_last_end(literal: Seq<char>, n: nat, part: Part)
    ensures
        last_end(literal, n, part) <= n,
    decreases n,
{
    if n > 0 && !is_part(part, literal[n - 1]) {
        lemma_last_end(literal, (n - 1) as nat, part);
    }
}

/// Every literal can be read that has at most as many characters as there can be decimal digits.
pub proof fn law_literals_fit(literal: Seq<char>)
    requires
        literal.len() <= 646_456_992,
        196 * literal.len() <= usize::MAX,
    ensures
        float_fits(literal),
{
    let hex = is_hex(literal);
    search::lemma_first_where(literal.len(), part_at(literal, Part::Marker { hex }));
    let end = significand_end(literal, hex);
    search::lemma_first_where(end, part_at(literal, Part::Point));
    search::lemma_first_where(end, part_at(literal, Part::Significant { hex }));
    lemma_last_end(literal, end, Part::Significant { hex });
}

fn belongs(part: Part, c: char) -> (r: bool)
    ensures
        r == is_part(part, c),
{
    match part {
        Part::Significant { hex } => ('1' <= c && c <= '9') || (hex && (('a' <= c && c <= 'f') || (
        'A' <= c && c <= 'F'))),
        Part::Marker { hex } => if hex {
            c == 'p' || c == 'P'
        } else {
            c == 'e' || c == 'E'
        },
        Part::Point => c == '.',
    }
}

fn find_part(literal: &[char], n: usize, part: Part) -> (r: Option<usize>)
    requires
        n <= literal@.len(),
    ensures
        match r {
            Some(i) => first_part(literal@, n as nat, part) == Some(i as int) && i < n && is_part(
                part,
                literal@[i as int],
            ),
            None => first_part(literal@, n as nat, part) is None,
        },
{
    let ghost wanted = part_at(literal@, part);
    let mut i: usize = 0;
    while i < n
        invariant
            i <= n <= literal@.len(),
            wanted == part_at(literal@, part),
            search::first_where(i as nat, wanted) is None,
        decreases n - i,
    {
        if belongs(part, literal[i]) {
            assert(wanted(i as int));
            proof {
                search::lemma_first_where_stable((i + 1) as nat, n as nat, wanted);
            }
            return Some(i);
        }
        assert(!wanted(i as int));
        i += 1;
    }
    None
}

fn find_last_end(literal: &[char], n: usize, part: Part) -> (r: usize)
    requires
        n <= literal@.len(),
    ensures
        r == last_end(literal@, n as nat, part),
        r <= n,
{
    let mut i: usize = n;
    while i > 0 && !belongs(part, literal[i - 1])
        invariant
            i <= n <= literal@.len(),
            last_end(literal@, n as nat, part) == last_end(literal@, i as nat, part),
        decreases i,
    {
        i -= 1;
    }
    i
}

fn find_hex(literal: &[char]) -> (r: bool)
    ensures
        r == is_hex(literal@),
{
    let start: usize = if literal.len() > 0 && (literal[0] == '+' || literal[0] == '-') {
        1
    } else {
        0
    };
    start + 1 < literal.len() && literal[start] == '0' && (literal[start + 1] == 'x'
        || literal[start + 1] == 'X')
}

/// Whether the literal can be read.
pub fn is_readable(literal: &[char]) -> (r: bool)
    ensures
        r == float_fits(literal@),
{
    let len: usize = literal.len();
    let hex: bool = find_hex(literal);
    let end: usize = match find_part(literal, len, Part::Marker { hex }) {
        Some(i) => i,
        None => len,
    };
    let first: usize = match find_part(literal, end, Part::Significant { hex }) {
        Some(first) => first,
        None => {
            return true;
        },
    };
    let point: usize = match find_part(literal, end, Part::Point) {
        Some(i) => i,
        None => end,
    };
    if hex {
        return if point > first {
            point - first <= MAX_POINT_DISTANCE
        } else {
            first == point || first - point - 1 <= MAX_POINT_DISTANCE
        };
    }
    let last: usize = find_last_end(literal, end, Part::Significant { hex });
    proof {
        lemma_last_above(literal@, end as nat, Part::Significant { hex }, first as int);
    }
    let digits: usize = if first < point && point < last {
        last - first - 1
    } else {
        last - first
    };
    digits <= MAX_DECIMAL_DIGITS && digits <= usize::MAX / 196
}

/// A part ends no later than the last such part.
proof fn lemma_last_above(literal: Seq<char>, n: nat, part: Part, i: int)
    requires
        0 <= i < n,
        is_part(part, literal[i]),
    ensures
        i < last_end(literal, n, part),
    decreases n,
{
    if !is_part(part, literal[n - 1]) {
        lemma_last_above(literal, (n - 1) as nat, part, i);
    }
}

} // verus!
