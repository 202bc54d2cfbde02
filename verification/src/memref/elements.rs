//! Elements of constants, as bytes and as text.

use crate::bytes;
use crate::bytes::ByteOrder;
use crate::ir::{Context, IntegerType, Signedness, TypeHandle, TypeObj, TypeView};
use crate::memref::attributes::{DenseElementsErr, ParseErr};
use crate::memref::literals;
use crate::text;
use crate::text::CharClass;
use crate::tokens;
use pliron::utils::apfloat::{Double, Float, Half, Single};
use pliron::utils::apint::APInt;
use std::num::NonZero;
use vstd::arithmetic::power::*;
use vstd::arithmetic::power2::*;
use vstd::prelude::*;

verus! {

/// The type of an element that a constant can hold.
#[derive(Clone, Copy, Debug, PartialEq, Eq, Structural)]
pub enum ElementType {
    Half,
    Single,
    Double,
    Integer(IntegerType),
}

/// The type of element that a type is, if constants can hold it.
pub open spec fn element_of(ty: TypeView) -> Option<ElementType> {
    match ty {
        TypeView::FP16 => Some(ElementType::Half),
        TypeView::FP32 => Some(ElementType::Single),
        TypeView::FP64 => Some(ElementType::Double),
        TypeView::Integer(integer) => Some(ElementType::Integer(integer)),
        _ => None,
    }
}

/// The type of element that a type is, if constants can hold it.
pub fn find_element_type(ctx: &Context, ty: TypeHandle) -> (r: Option<ElementType>)
    requires
        ctx.has(ty),
    ensures
        r == element_of(ctx.get(ty)),
{
    match ctx.deref(ty) {
        TypeObj::FP16 => Some(ElementType::Half),
        TypeObj::FP32 => Some(ElementType::Single),
        TypeObj::FP64 => Some(ElementType::Double),
        TypeObj::Integer(integer) => Some(ElementType::Integer(*integer)),
        _ => None,
    }
}

/// The number of bytes that hold `width` bits.
pub open spec fn bytes_for(width: u32) -> nat {
    ((width + 7) / 8) as nat
}

impl ElementType {
    /// The number of bytes of an element.
    pub open spec fn size(self) -> nat {
        match self {
            ElementType::Half => 2,
            ElementType::Single => 4,
            ElementType::Double => 8,
            ElementType::Integer(ty) => bytes_for(ty.width),
        }
    }

    /// The number of bytes of an element.
    pub fn element_size(&self) -> (r: usize)
        ensures
            r == self.size(),
    {
        match self {
            ElementType::Half => 2,
            ElementType::Single => 4,
            ElementType::Double => 8,
            ElementType::Integer(ty) => int_element_size(ty.width),
        }
    }

    /// An integer has at least one bit.
    pub open spec fn has_bits(self) -> bool {
        self matches ElementType::Integer(ty) ==> ty.width > 0
    }
}

/// The number of bytes that an integer of `width` bits takes.
fn int_element_size(width: u32) -> (r: usize)
    ensures
        r == bytes_for(width),
{
    let whole: u32 = width / 8;
    if width % 8 == 0 {
        whole as usize
    } else {
        whole as usize + 1
    }
}

impl IntegerType {
    /// Values are written with a sign: signed integers are, and so are signless ones of more
    /// than one bit.
    pub open spec fn signed_text(self) -> bool {
        match self.signedness {
            Signedness::Signed => true,
            Signedness::Unsigned => false,
            Signedness::Signless => self.width > 1,
        }
    }

    /// Whether values are written with a sign.
    pub fn prints_as_signed(&self) -> (r: bool)
        ensures
            r == self.signed_text(),
    {
        match self.signedness {
            Signedness::Signed => true,
            Signedness::Unsigned => false,
            Signedness::Signless => self.width > 1,
        }
    }
}

// Integers
/// The text of `width` bits that stand for the number `value`, or for a negative number if the
/// highest bit is set and `signed` is.
pub open spec fn int_text(value: nat, width: nat, signed: bool) -> Seq<char> {
    if signed && value >= pow2((width - 1) as nat) {
        seq!['-'] + text::decimal((pow2(width) - value) as nat)
    } else {
        text::decimal(value)
    }
}

/// The bits that bytes in the given order hold.
pub open spec fn int_value(element: Seq<u8>, width: nat, order: ByteOrder) -> nat {
    bytes::ordered_value(element, order) % pow2(width)
}

/// `APInt::to_string_decimal`, of what `APInt::from_u8_slice` makes of the bytes: the decimal
/// digits of the lowest `width` bits, the least significant byte first, after a minus sign if
/// the text is signed and the highest bit is set.
#[verifier::external_body]
fn int_to_text(element: &[u8], width: u32, signed: bool) -> (r: Vec<char>)
    requires
        width > 0,
    ensures
        r@ == int_text(int_value(element@, width as nat, ByteOrder::Little), width as nat, signed),
{
    let width = NonZero::new(width as usize).unwrap();
    APInt::from_u8_slice(element, width).to_string_decimal(signed).chars().collect()
}

/// An optional sign, and digits.
pub open spec fn is_int_literal(literal: Seq<char>) -> bool {
    &&& literal.len() > 0
    &&& tokens::literal_digits(literal).len() > 0
    &&& text::all_digits(tokens::literal_digits(literal))
}

/// The `width` bits that a literal stands for, if they can hold it: a number without a minus
/// sign is held as it is, and one with a minus sign in two's complement.
pub open spec fn literal_value(literal: Seq<char>, width: nat) -> Option<nat> {
    let n = text::digits_value(tokens::literal_digits(literal));
    if literal[0] == '-' {
        if n <= pow2((width - 1) as nat) {
            Some(((pow2(width) - n) % pow2(width) as int) as nat)
        } else {
            None
        }
    } else if n < pow2(width) {
        Some(n)
    } else {
        None
    }
}

/// `APInt::from_str` in base ten, and the bytes that `APInt::to_u8_slice` writes: those of the
/// bits that the literal stands for, the least significant first. Nothing comes back if
/// `width` bits cannot hold the number. `size` is the number of bytes that the bits take.
///
/// A slice of characters has at most a quarter as many of them as a slice has bytes, so that
/// the number of bits that `APInt::from_str` reserves fits a machine word for every literal.
#[verifier::external_body]
fn int_from_text(literal: &[char], width: u32, size: usize) -> (r: Option<Vec<u8>>)
    requires
        width > 0,
        size == bytes_for(width),
        is_int_literal(literal@),
    ensures
        match r {
            Some(element) => literal_value(literal@, width as nat) matches Some(value)
                && element@ == bytes::le_bytes(value, size as nat),
            None => literal_value(literal@, width as nat) is None,
        },
{
    let literal: String = literal.iter().collect();
    let value = APInt::from_str(&literal, width as usize, 10).ok()?;
    let mut element = vec![0u8; size];
    value.to_u8_slice(&mut element);
    Some(element)
}

// Floating-point numbers
/// The text of the half-precision number with the given bits.
pub uninterp spec fn half_text(bits: u16) -> Seq<char>;

/// The bits of the half-precision number that text stands for, if it stands for one.
pub uninterp spec fn half_bits(literal: Seq<char>) -> Option<u16>;

/// The text of the single-precision number with the given bits.
pub uninterp spec fn single_text(bits: u32) -> Seq<char>;

/// The bits of the single-precision number that text stands for, if it stands for one.
pub uninterp spec fn single_bits(literal: Seq<char>) -> Option<u32>;

/// The text of the double-precision number with the given bits.
pub uninterp spec fn double_text(bits: u64) -> Seq<char>;

/// The bits of the double-precision number that text stands for, if it stands for one.
pub uninterp spec fn double_bits(literal: Seq<char>) -> Option<u64>;

/// The bits, but for the sign, are above those of infinity.
pub open spec fn half_is_nan(bits: nat) -> bool {
    bits % 0x8000 > 0x7c00
}

/// The bits, but for the sign, are above those of infinity.
pub open spec fn single_is_nan(bits: nat) -> bool {
    bits % 0x8000_0000 > 0x7f80_0000
}

/// The bits, but for the sign, are above those of infinity.
pub open spec fn double_is_nan(bits: nat) -> bool {
    bits % 0x8000_0000_0000_0000 > 0x7ff0_0000_0000_0000
}

/// Not empty, and made of characters that literals are made of.
pub open spec fn is_float_literal(literal: Seq<char>) -> bool {
    &&& literal.len() > 0
    &&& forall|i: int|
        0 <= i < literal.len() ==> text::in_class(CharClass::Literal, #[trigger] literal[i])
}

/// `Display` of `Half`, of the number with the given bits. It writes enough digits that
/// `FromStr` gives the number back, but not which NaN it is. The text is made of letters,
/// digits, signs and dots; which ones they are is not claimed. There are at most seventeen
/// digits, three zeros and a dot, with a sign before them and an exponent behind them.
#[verifier::external_body]
fn half_to_text(bits: u16) -> (r: Vec<char>)
    ensures
        r@ == half_text(bits),
        is_float_literal(r@),
        r@.len() <= 32,
        !half_is_nan(bits as nat) ==> half_bits(r@) == Some(bits),
{
    format!("{}", Half::from_bits(bits as u128)).chars().collect()
}

/// `FromStr` of `Half`, and the bits of the number that comes back. Nothing comes back if the
/// text stands for no number. Which number it stands for is not claimed. Left out are literals
/// with so many digits that the bits of their decimal digits, or the distance of a hexadecimal
/// point, are not counted in the thirty-two bits of an exponent, or that the room for them is
/// not counted in a machine word.
#[verifier::external_body]
fn half_from_text(literal: &[char]) -> (r: Option<u16>)
    requires
        literals::float_fits(literal@),
    ensures
        r == half_bits(literal@),
{
    let literal: String = literal.iter().collect();
    Some(literal.parse::<Half>().ok()?.to_bits() as u16)
}

/// `Display` of `Single`, of the number with the given bits. It writes enough digits that
/// `FromStr` gives the number back, but not which NaN it is. The text is made of letters,
/// digits, signs and dots; which ones they are is not claimed. There are at most seventeen
/// digits, three zeros and a dot, with a sign before them and an exponent behind them.
#[verifier::external_body]
fn single_to_text(bits: u32) -> (r: Vec<char>)
    ensures
        r@ == single_text(bits),
        is_float_literal(r@),
        r@.len() <= 32,
        !single_is_nan(bits as nat) ==> single_bits(r@) == Some(bits),
{
    format!("{}", Single::from_bits(bits as u128)).chars().collect()
}

/// `FromStr` of `Single`, and the bits of the number that comes back. Nothing comes back if the
/// text stands for no number. Which number it stands for is not claimed. Left out are literals
/// with so many digits that the bits of their decimal digits, or the distance of a hexadecimal
/// point, are not counted in the thirty-two bits of an exponent, or that the room for them is
/// not counted in a machine word.
#[verifier::external_body]
fn single_from_text(literal: &[char]) -> (r: Option<u32>)
    requires
        literals::float_fits(literal@),
    ensures
        r == single_bits(literal@),
{
    let literal: String = literal.iter().collect();
    Some(literal.parse::<Single>().ok()?.to_bits() as u32)
}

/// `Display` of `Double`, of the number with the given bits. It writes enough digits that
/// `FromStr` gives the number back, but not which NaN it is. The text is made of letters,
/// digits, signs and dots; which ones they are is not claimed. There are at most seventeen
/// digits, three zeros and a dot, with a sign before them and an exponent behind them.
#[verifier::external_body]
fn double_to_text(bits: u64) -> (r: Vec<char>)
    ensures
        r@ == double_text(bits),
        is_float_literal(r@),
        r@.len() <= 32,
        !double_is_nan(bits as nat) ==> double_bits(r@) == Some(bits),
{
    format!("{}", Double::from_bits(bits as u128)).chars().collect()
}

/// `FromStr` of `Double`, and the bits of the number that comes back. Nothing comes back if the
/// text stands for no number. Which number it stands for is not claimed. Left out are literals
/// with so many digits that the bits of their decimal digits, or the distance of a hexadecimal
/// point, are not counted in the thirty-two bits of an exponent, or that the room for them is
/// not counted in a machine word.
#[verifier::external_body]
fn double_from_text(literal: &[char]) -> (r: Option<u64>)
    requires
        literals::float_fits(literal@),
    ensures
        r == double_bits(literal@),
{
    let literal: String = literal.iter().collect();
    Some(literal.parse::<Double>().ok()?.to_bits() as u64)
}

// Elements
/// The text of an element whose bytes stand in the given order.
pub open spec fn element_text(ty: ElementType, element: Seq<u8>, order: ByteOrder) -> Seq<char> {
    match ty {
        ElementType::Half => half_text(bytes::ordered_value(element, order) as u16),
        ElementType::Single => single_text(bytes::ordered_value(element, order) as u32),
        ElementType::Double => double_text(bytes::ordered_value(element, order) as u64),
        ElementType::Integer(integer) => int_text(
            int_value(element, integer.width as nat, order),
            integer.width as nat,
            integer.signed_text(),
        ),
    }
}

/// The element comes back from its text: the bits that an integer does not use are zero, and
/// the text of a floating-point number stands for the number.
pub open spec fn reads_back(ty: ElementType, element: Seq<u8>, order: ByteOrder) -> bool {
    let bits = bytes::ordered_value(element, order);
    match ty {
        ElementType::Half => is_float_literal(half_text(bits as u16)) && literals::float_fits(
            half_text(bits as u16),
        ) && half_bits(half_text(bits as u16)) == Some(bits as u16),
        ElementType::Single => is_float_literal(single_text(bits as u32)) && literals::float_fits(
            single_text(bits as u32),
        ) && single_bits(single_text(bits as u32)) == Some(bits as u32),
        ElementType::Double => is_float_literal(double_text(bits as u64)) && literals::float_fits(
            double_text(bits as u64),
        ) && double_bits(double_text(bits as u64)) == Some(bits as u64),
        ElementType::Integer(integer) => bits < pow2(integer.width as nat),
    }
}

/// A floating-point number is not a NaN, and the bits that an integer does not use are zero.
pub open spec fn holds_number(ty: ElementType, element: Seq<u8>, order: ByteOrder) -> bool {
    let bits = bytes::ordered_value(element, order);
    match ty {
        ElementType::Half => !half_is_nan(bits),
        ElementType::Single => !single_is_nan(bits),
        ElementType::Double => !double_is_nan(bits),
        ElementType::Integer(integer) => bits < pow2(integer.width as nat),
    }
}

proof fn lemma_ordered_value_bound(element: Seq<u8>, order: ByteOrder)
    ensures
        bytes::ordered_value(element, order) < pow(256, element.len()),
{
    bytes::lemma_le_value_bound(element);
    bytes::lemma_le_value_bound(element.reverse());
}

/// The text of an element.
pub fn print_element(ty: ElementType, element: &[u8], order: ByteOrder) -> (r: Vec<char>)
    requires
        element@.len() == ty.size(),
        ty.has_bits(),
    ensures
        r@ == element_text(ty, element@, order),
        holds_number(ty, element@, order) ==> reads_back(ty, element@, order),
{
    proof {
        lemma_ordered_value_bound(element@, order);
        bytes::lemma_pow_eight();
    }
    let printed: Vec<char> = match ty {
        ElementType::Half => half_to_text(bytes::read_uint(element, order) as u16),
        ElementType::Single => single_to_text(bytes::read_uint(element, order) as u32),
        ElementType::Double => double_to_text(bytes::read_uint(element, order)),
        ElementType::Integer(integer) => {
            let digits: Vec<u8> = bytes::reorder(element, order);
            int_to_text(digits.as_slice(), integer.width, integer.prints_as_signed())
        },
    };
    proof {
        if printed@.len() <= 32 {
            literals::law_literals_fit(printed@);
        }
    }
    printed
}

/// The bytes of the integer that a literal stands for, if it is one of the type. A signed
/// integer that is written without a minus sign is not negative.
pub open spec fn int_element(literal: Seq<char>, ty: IntegerType, order: ByteOrder) -> Option<
    Seq<u8>,
> {
    let width = ty.width as nat;
    match literal_value(literal, width) {
        Some(value) => if ty.signedness is Signed && literal[0] != '-' && value >= pow2(
            (width - 1) as nat,
        ) {
            None
        } else {
            Some(bytes::ordered_bytes(value, bytes_for(ty.width), order))
        },
        None => None,
    }
}

/// The bytes of the element at `pos` of a text, and where it ends.
pub open spec fn element_at(ty: ElementType, t: Seq<char>, pos: int, order: ByteOrder) -> Result<
    (Seq<u8>, int),
    ParseErr,
> {
    match ty {
        ElementType::Integer(integer) => match tokens::int_literal_end(t, pos) {
            None => Err(ParseErr::Unexpected { at: pos as usize }),
            Some(end) => match int_element(t.subrange(pos, end), integer, order) {
                Some(element) => Ok((element, end)),
                None => Err(
                    ParseErr::Constant {
                        at: pos as usize,
                        error: DenseElementsErr::ElementOutOfRange {
                            ty: integer,
                            start: pos as usize,
                            end: end as usize,
                        },
                    },
                ),
            },
        },
        _ => {
            let end = text::run_end(t, pos, CharClass::Literal);
            let literal = t.subrange(pos, end);
            if end == pos {
                Err(ParseErr::Unexpected { at: pos as usize })
            } else if !literals::float_fits(literal) {
                Err(ParseErr::TooLong { at: pos as usize })
            } else {
                match float_element(ty, literal, order) {
                    Some(element) => Ok((element, end)),
                    None => Err(ParseErr::InvalidFloat { at: pos as usize }),
                }
            }
        },
    }
}

/// The bytes of the floating-point number that a literal stands for, if it stands for one.
pub open spec fn float_element(ty: ElementType, literal: Seq<char>, order: ByteOrder) -> Option<
    Seq<u8>,
> {
    match ty {
        ElementType::Half => match half_bits(literal) {
            Some(bits) => Some(bytes::ordered_bytes(bits as nat, 2, order)),
            None => None,
        },
        ElementType::Single => match single_bits(literal) {
            Some(bits) => Some(bytes::ordered_bytes(bits as nat, 4, order)),
            None => None,
        },
        ElementType::Double => match double_bits(literal) {
            Some(bits) => Some(bytes::ordered_bytes(bits as nat, 8, order)),
            None => None,
        },
        ElementType::Integer(_) => None,
    }
}

fn parse_int_element(t: &[char], pos: usize, ty: IntegerType, order: ByteOrder) -> (r: Result<
    (Vec<u8>, usize),
    ParseErr,
>)
    requires
        pos <= t@.len(),
        ty.width > 0,
    ensures
        match r {
            Ok((element, end)) => element_at(
                ElementType::Integer(ty),
                t@,
                pos as int,
                order,
            ) == Ok::<(Seq<u8>, int), ParseErr>((element@, end as int)) && pos < end <= t@.len(),
            Err(error) => element_at(ElementType::Integer(ty), t@, pos as int, order)
                == Err::<(Seq<u8>, int), ParseErr>(error),
        },
{
    let len: usize = t.len();
    let start: usize = if pos < len && (t[pos] == '+' || t[pos] == '-') {
        pos + 1
    } else {
        pos
    };
    let end: usize = text::find_run_end(t, start, CharClass::Digit);
    if end == start {
        return Err(ParseErr::Unexpected { at: pos });
    }
    let literal: &[char] = vstd::slice::slice_subrange(t, pos, end);
    proof {
        text::lemma_run_end(t@, start as int, CharClass::Digit);
        let digits = tokens::literal_digits(literal@);
        assert(digits =~= t@.subrange(start as int, end as int)) by {
            assert(text::in_class(CharClass::Digit, t@[start as int]));
        }
        assert(text::all_digits(digits)) by {
            assert forall|i: int| 0 <= i < digits.len() implies text::is_digit(
                #[trigger] digits[i],
            ) by {
                assert(text::in_class(CharClass::Digit, t@[start + i]));
            }
        }
    }
    let out_of_range = ParseErr::Constant {
        at: pos,
        error: DenseElementsErr::ElementOutOfRange { ty, start: pos, end },
    };
    let element: Vec<u8> = match int_from_text(literal, ty.width, int_element_size(ty.width)) {
        Some(element) => element,
        None => {
            return Err(out_of_range);
        },
    };
    let signed: bool = match ty.signedness {
        Signedness::Signed => true,
        _ => false,
    };
    if signed && literal[0] != '-' {
        let written: Vec<char> = int_to_text(element.as_slice(), ty.width, true);
        proof {
            let width = ty.width as nat;
            let value = literal_value(literal@, width)->Some_0;
            lemma_int_bytes(value, ty.width);
            lemma_negative_text(value, width);
        }
        if written[0] == '-' {
            return Err(out_of_range);
        }
    }
    Ok((bytes::reorder(element.as_slice(), order), end))
}

/// Bits are read back from the bytes that hold them.
proof fn lemma_int_bytes(value: nat, width: u32)
    requires
        value < pow2(width as nat),
    ensures
        int_value(
            bytes::le_bytes(value, bytes_for(width)),
            width as nat,
            ByteOrder::Little,
        ) == value,
        bytes::le_bytes(value, bytes_for(width)).len() == bytes_for(width),
{
    let n = bytes_for(width);
    lemma_pow256(n);
    if (width as nat) < 8 * n {
        lemma_pow2_strictly_increases(width as nat, 8 * n);
    }
    bytes::lemma_le_value_of_bytes(value, n);
    bytes::lemma_le_bytes_len(value, n);
    vstd::arithmetic::div_mod::lemma_small_mod(value, pow2(width as nat));
}

proof fn lemma_pow256(n: nat)
    ensures
        pow(256, n) == pow2(8 * n),
    decreases n,
{
    if n == 0 {
        lemma_pow0(256);
        lemma2_to64();
    } else {
        lemma_pow256((n - 1) as nat);
        lemma_pow1(256);
        lemma_pow_adds(256, 1, (n - 1) as nat);
        lemma_pow2_adds(8, 8 * (n - 1) as nat);
        lemma2_to64();
        assert(8 + 8 * (n - 1) as nat == 8 * n);
    }
}

/// Signed text begins with a minus sign exactly if the highest bit is set.
proof fn lemma_negative_text(value: nat, width: nat)
    requires
        value < pow2(width),
        width > 0,
    ensures
        int_text(value, width, true).len() > 0,
        int_text(value, width, true)[0] == '-' <==> value >= pow2((width - 1) as nat),
{
    text::law_decimal(value);
    assert(text::is_digit(text::decimal(value)[0]));
}

/// The bytes of the element at `pos` of a text, and where it ends.
pub fn parse_element(ty: ElementType, t: &[char], pos: usize, order: ByteOrder) -> (r: Result<
    (Vec<u8>, usize),
    ParseErr,
>)
    requires
        pos <= t@.len(),
        ty.has_bits(),
    ensures
        match r {
            Ok((element, end)) => element_at(ty, t@, pos as int, order) == Ok::<
                (Seq<u8>, int),
                ParseErr,
            >((element@, end as int)) && pos < end <= t@.len(),
            Err(error) => element_at(ty, t@, pos as int, order) == Err::<
                (Seq<u8>, int),
                ParseErr,
            >(error),
        },
{
    if let ElementType::Integer(integer) = ty {
        return parse_int_element(t, pos, integer, order);
    }
    let end: usize = text::find_run_end(t, pos, CharClass::Literal);
    if end == pos {
        return Err(ParseErr::Unexpected { at: pos });
    }
    let literal: &[char] = vstd::slice::slice_subrange(t, pos, end);
    if !literals::is_readable(literal) {
        return Err(ParseErr::TooLong { at: pos });
    }
    let element: Option<Vec<u8>> = match ty {
        ElementType::Half => match half_from_text(literal) {
            Some(bits) => Some(bytes::write_uint(bits as u64, 2, order)),
            None => None,
        },
        ElementType::Single => match single_from_text(literal) {
            Some(bits) => Some(bytes::write_uint(bits as u64, 4, order)),
            None => None,
        },
        ElementType::Double => match double_from_text(literal) {
            Some(bits) => Some(bytes::write_uint(bits, 8, order)),
            None => None,
        },
        ElementType::Integer(_) => None,
    };
    match element {
        Some(element) => Ok((element, end)),
        None => Err(ParseErr::InvalidFloat { at: pos }),
    }
}

proof fn lemma_ordered_bytes_of_value(element: Seq<u8>, order: ByteOrder)
    ensures
        bytes::ordered_bytes(
            bytes::ordered_value(element, order),
            element.len(),
            order,
        ) == element,
{
    bytes::lemma_le_bytes_of_value(element);
    bytes::lemma_le_bytes_of_value(element.reverse());
    assert(element.reverse().reverse() =~= element);
}

/// The text of bits stands for them.
proof fn lemma_int_text_value(value: nat, ty: IntegerType, order: ByteOrder)
    requires
        value < pow2(ty.width as nat),
        ty.width > 0,
    ensures
        is_int_literal(int_text(value, ty.width as nat, ty.signed_text())),
        int_element(int_text(value, ty.width as nat, ty.signed_text()), ty, order) == Some(
            bytes::ordered_bytes(value, bytes_for(ty.width), order),
        ),
{
    let width = ty.width as nat;
    let half = pow2((width - 1) as nat);
    lemma_pow2_unfold(width);
    let literal = int_text(value, width, ty.signed_text());
    if ty.signed_text() && value >= half {
        let n = (pow2(width) - value) as nat;
        text::law_decimal(n);
        assert(literal.skip(1) =~= text::decimal(n));
        assert(literal[0] == '-');
        vstd::arithmetic::div_mod::lemma_small_mod(value, pow2(width));
    } else {
        text::law_decimal(value);
        assert(text::is_digit(literal[0]));
        if ty.signedness is Unsigned || (ty.signedness is Signless) {
        } else {
            assert(value < half);
        }
    }
}

/// An element that is written out and read again is the same.
pub proof fn law_element_round_trip(
    ty: ElementType,
    element: Seq<u8>,
    order: ByteOrder,
    t: Seq<char>,
    pos: int,
)
    requires
        element.len() == ty.size(),
        ty.has_bits(),
        text::occurs_at(t, pos, element_text(ty, element, order)),
        ({
            let end = pos + element_text(ty, element, order).len();
            end < t.len() ==> !text::in_class(CharClass::Literal, t[end])
        }),
    ensures
        reads_back(ty, element, order) ==> element_at(ty, t, pos, order) == Ok::<
            (Seq<u8>, int),
            ParseErr,
        >((element, pos + element_text(ty, element, order).len())),
{
    if reads_back(ty, element, order) {
        let literal = element_text(ty, element, order);
        let end = pos + literal.len();
        lemma_ordered_value_bound(element, order);
        bytes::lemma_pow_eight();
        lemma_ordered_bytes_of_value(element, order);
        assert(t.subrange(pos, end) =~= literal) by {
            assert forall|i: int| 0 <= i < literal.len() implies t.subrange(pos, end)[i]
                == literal[i] by {
                assert(t[pos + i] == literal[i]);
            }
        }
        match ty {
            ElementType::Integer(integer) => {
                let value = int_value(element, integer.width as nat, order);
                vstd::arithmetic::div_mod::lemma_small_mod(
                    bytes::ordered_value(element, order),
                    pow2(integer.width as nat),
                );
                lemma_int_text_value(value, integer, order);
                assert(t[pos + 0] == literal[0]);
                let start = if tokens::is_sign(t[pos]) {
                    pos + 1
                } else {
                    pos
                };
                let digits = tokens::literal_digits(literal);
                assert forall|i: int| start <= i < end implies text::in_class(
                    CharClass::Digit,
                    #[trigger] t[i],
                ) by {
                    assert(t[pos + (i - pos)] == literal[i - pos]);
                    assert(text::is_digit(digits[i - start]));
                }
                text::lemma_run_ends_at(t, start, end, CharClass::Digit);
            },
            _ => {
                assert forall|i: int| pos <= i < end implies text::in_class(
                    CharClass::Literal,
                    #[trigger] t[i],
                ) by {
                    assert(t[pos + (i - pos)] == literal[i - pos]);
                }
                text::lemma_run_ends_at(t, pos, end, CharClass::Literal);
            },
        }
    }
}

} // verus!
