//! What constants hold.

use crate::bytes;
use crate::bytes::ByteOrder;
use crate::ir::{Context, IntegerType, TypeView};
use crate::memref::attributes;
use crate::memref::attributes::{DenseElementsErr, ShapedTypeHandle};
use crate::memref::dense_text;
use crate::memref::elements;
use crate::memref::elements::ElementType;
use crate::memref::hex;
use crate::memref::type_interfaces;
use crate::memref::type_text::ForeignType;
use crate::row_major;
use crate::semantics;
use crate::text;
use crate::text::CharClass;
use crate::tokens;
use vstd::arithmetic::div_mod::*;
use vstd::arithmetic::power::*;
use vstd::arithmetic::power2::*;
use vstd::prelude::*;

verus! {

/// The number of bits of an element.
pub open spec fn bits_in(element: ElementType) -> nat {
    match element {
        ElementType::Half => 16,
        ElementType::Single => 32,
        ElementType::Double => 64,
        ElementType::Integer(integer) => integer.width as nat,
    }
}

/// Constants hold floating-point numbers of the precision that the type says, and integers of the
/// width and sign that it says, and nothing else.
pub proof fn law_element_types(ty: TypeView)
    ensures
        match ty {
            TypeView::FP16 => elements::element_of(ty) matches Some(element) && !(
            element is Integer) && bits_in(element) == 16,
            TypeView::FP32 => elements::element_of(ty) matches Some(element) && !(
            element is Integer) && bits_in(element) == 32,
            TypeView::FP64 => elements::element_of(ty) matches Some(element) && !(
            element is Integer) && bits_in(element) == 64,
            TypeView::Integer(integer) => elements::element_of(ty) == Some(
                ElementType::Integer(integer),
            ),
            _ => elements::element_of(ty) is None,
        },
{
}

/// An element takes the fewest bytes that hold its bits.
pub proof fn law_element_bytes(element: ElementType, bytes: nat)
    ensures
        8 * bytes >= bits_in(element) <==> bytes >= element.size(),
{
}

/// Bytes are a constant exactly if the elements are numbers of at least one bit, the shape is
/// static, and there are bytes for all elements, or for one that all are.
pub proof fn law_constant_verifies(ctx: Context, ty: ShapedTypeHandle, got: nat)
    ensures
        attributes::dense_verdict(ctx, ty, got) is Ok <==> {
            let shape = attributes::shaped(ctx, ty)->0.shape;
            &&& attributes::dense_element(ctx, ty) matches Some(element) && bits_in(element) > 0
                && exists|sizes: Seq<nat>| #[trigger]
                type_interfaces::has_sizes(shape, sizes) && (got == element.size() || got
                    == row_major::product(sizes) * element.size())
            &&& type_interfaces::fully_static(shape)
        },
        attributes::dense_verdict(ctx, ty, got) matches Err(error) ==> match error {
            DenseElementsErr::UnsupportedElementType(element_type) => {
                &&& element_type == attributes::shaped(ctx, ty)->0.element_type
                &&& attributes::dense_element(ctx, ty) matches Some(element) ==> bits_in(element)
                    == 0
            },
            DenseElementsErr::DynamicShape(t) => t == ty && !type_interfaces::fully_static(
                attributes::shaped(ctx, ty)->0.shape,
            ),
            DenseElementsErr::DataSize { ty: t, expected, element, got: g } => t == ty && g
                == got as usize && element == attributes::dense_element(
                ctx,
                ty,
            )->0.size() as usize && exists|sizes: Seq<nat>| #[trigger]
                type_interfaces::has_sizes(attributes::shaped(ctx, ty)->0.shape, sizes)
                    && expected == (row_major::product(sizes) * attributes::dense_element(
                    ctx,
                    ty,
                )->0.size()) as usize,
            _ => false,
        },
{
    let shape = attributes::shaped(ctx, ty)->0.shape;
    if let Some(element) = attributes::dense_element(ctx, ty) {
        law_element_bytes(element, 0);
        if type_interfaces::fully_static(shape) {
            let sizes = type_interfaces::static_sizes(shape);
            type_interfaces::lemma_static_sizes(shape, sizes);
            assert(type_interfaces::has_sizes(shape, sizes));
            assert forall|other: Seq<nat>| #[trigger]
                type_interfaces::has_sizes(shape, other) implies other == sizes by {
                type_interfaces::lemma_static_sizes(shape, other);
            }
        }
    }
}

/// The number that an integer literal stands for.
pub open spec fn literal_number(literal: Seq<char>) -> int {
    let n = text::digits_value(tokens::literal_digits(literal)) as int;
    if literal[0] == '-' {
        -n
    } else {
        n
    }
}

/// Bits are written as the number that they stand for.
pub proof fn law_int_text_number(value: nat, width: nat, signed: bool)
    requires
        value < pow2(width),
        width > 0,
    ensures
        literal_number(elements::int_text(value, width, signed)) == if signed {
            semantics::signed_number(value as int, width)
        } else {
            value as int
        },
{
    let literal = elements::int_text(value, width, signed);
    lemma_pow2_unfold(width);
    if signed && 2 * value >= pow2(width) {
        let n = (pow2(width) - value) as nat;
        text::law_decimal(n);
        assert(literal.skip(1) =~= text::decimal(n));
    } else {
        text::law_decimal(value);
        assert(text::is_digit(literal[0]));
    }
}

/// An integer literal is an element exactly if the type has its number, and the bytes are those
/// of the number in two's complement. Signed integers go from minus half to half the power of
/// two, and others up to the whole of it.
pub proof fn law_int_element_number(literal: Seq<char>, ty: IntegerType, order: ByteOrder)
    requires
        elements::is_int_literal(literal),
        ty.width > 0,
    ensures
        ({
            let n = literal_number(literal);
            let half = pow2((ty.width - 1) as nat) as int;
            let in_range = -half <= n && n < if ty.signedness is Signed {
                half
            } else {
                2 * half
            };
            &&& elements::int_element(literal, ty, order) is Some <==> in_range
            &&& elements::int_element(literal, ty, order) matches Some(element) ==> {
                &&& element.len() == ElementType::Integer(ty).size()
                &&& bytes::ordered_value(element, order) == semantics::bits_of(
                    n,
                    ty.width as nat,
                )
            }
        }),
{
    let width = ty.width as nat;
    let n = literal_number(literal);
    let digits = text::digits_value(tokens::literal_digits(literal));
    let whole = pow2(width) as int;
    let half = pow2((width - 1) as nat) as int;
    lemma_pow2_unfold(width);
    lemma_pow2_pos((width - 1) as nat);
    if let Some(value) = elements::literal_value(literal, width) {
        if literal[0] == '-' {
            lemma_mod_bound(whole - n, whole);
            lemma_mod_bound(whole + n, whole);
            lemma_mod_multiples_vanish(1, n, whole);
            assert(whole * 1 + n == whole - digits);
            if digits == 0 {
                lemma_mod_self_0(whole);
                lemma_small_mod(0, whole as nat);
            } else {
                lemma_small_mod((whole - digits) as nat, whole as nat);
            }
        } else {
            lemma_small_mod(value, whole as nat);
        }
        assert(value == semantics::bits_of(n, width));
        assert(value < whole);
        let size = elements::bytes_for(ty.width);
        lemma_width_fits(ty.width);
        bytes::lemma_le_bytes_len(value, size);
        bytes::lemma_le_value_of_bytes(value, size);
        let plain = bytes::le_bytes(value, size);
        assert(plain.reverse().reverse() =~= plain);
    }
}

/// The bits of an integer fit its bytes.
proof fn lemma_width_fits(width: u32)
    ensures
        pow2(width as nat) <= pow(256, elements::bytes_for(width)),
{
    let size = elements::bytes_for(width);
    let n = 8 * size;
    lemma_bytes_power(size);
    if width < n {
        lemma_pow2_strictly_increases(width as nat, n);
    }
}

proof fn lemma_bytes_power(n: nat)
    ensures
        pow(256, n) == pow2(8 * n),
    decreases n,
{
    if n == 0 {
        lemma_pow0(256);
        lemma2_to64();
    } else {
        lemma_bytes_power((n - 1) as nat);
        lemma_pow1(256);
        lemma_pow_adds(256, 1, (n - 1) as nat);
        lemma_pow2_adds(8, 8 * (n - 1) as nat);
        lemma2_to64();
        assert(8 + 8 * (n - 1) as nat == 8 * n);
    }
}

/// Bytes are written as two hexadecimal digits each, the higher one first, with capital letters.
pub proof fn law_hex_numerals(data: Seq<u8>, i: int)
    requires
        0 <= i < data.len(),
    ensures
        ({
            let high = hex::hex_digits(data)[2 * i];
            let low = hex::hex_digits(data)[2 * i + 1];
            &&& hex::hex_number(seq![high, low]) == data[i]
            &&& '0' <= high <= '9' || 'A' <= high <= 'F'
            &&& '0' <= low <= '9' || 'A' <= low <= 'F'
        }),
{
    let high = hex::hex_digits(data)[2 * i];
    let low = hex::hex_digits(data)[2 * i + 1];
    let pair = seq![high, low];
    let none = Seq::<char>::empty();
    assert(pair.drop_last() =~= none.push(high));
    assert(none.push(high).drop_last() =~= none);
    assert(hex::hex_number(none) == 0);
    assert(hex::hex_number(none.push(high)) == hex::hex_value(high));
    let x = data[i];
    assert(x / 16 < 16 && x == 16 * (x / 16) + x % 16);
}

/// Text that stands for bytes has two characters for each, which are hexadecimal digits, the
/// higher one first. A plus sign may take the place of the higher one, and then stands for zero.
pub proof fn law_decoded_digits(s: Seq<char>, i: int)
    requires
        hex::decoded(s) is Ok,
        0 <= i < hex::decoded(s)->Ok_0.len(),
    ensures
        ({
            let data = hex::decoded(s)->Ok_0;
            let high = s[2 + 2 * i];
            let low = s[3 + 2 * i];
            &&& s.len() == 2 + 2 * data.len()
            &&& s[0] == '0' && s[1] == 'x'
            &&& text::is_hex(low)
            &&& if high == '+' {
                data[i] == hex::hex_value(low)
            } else {
                text::is_hex(high) && data[i] == hex::hex_number(seq![high, low])
            }
        }),
{
    reveal_strlit("0x");
    let digits = s.skip(2);
    let high = digits[2 * i];
    let low = digits[2 * i + 1];
    assert(hex::pair_value(high, low) is Some);
    let start: int = 0;
    assert(s[start + 0] == "0x"@[0]);
    assert(s[start + 1] == "0x"@[1]);
    let pair = seq![high, low];
    let none = Seq::<char>::empty();
    assert(pair.drop_last() =~= none.push(high));
    assert(none.push(high).drop_last() =~= none);
    assert(hex::hex_number(none) == 0);
    assert(hex::hex_number(none.push(high)) == hex::hex_value(high));
    if text::is_hex(high) {
        assert(hex::hex_value(high) < 16);
    }
    assert(hex::hex_value(low) < 16);
}

/// One element is written as a splat, up to a hundred as a list in brackets, and more as a string
/// of digits.
pub proof fn law_written_form(element: ElementType, data: Seq<u8>, n: nat, order: ByteOrder)
    requires
        element.size() > 0,
        data.len() == n * element.size(),
    ensures
        ({
            let written = dense_text::data_text(element, data, order);
            if n == 1 {
                text::occurs_at(written, 0, "splat "@)
            } else if n <= 100 {
                written.len() > 0 && written[0] == '['
            } else {
                written.len() > 0 && written[0] == '"'
            }
        }),
{
    reveal_strlit("splat ");
    reveal_strlit("[");
    reveal_strlit("\"0x");
    let size = element.size() as int;
    lemma_div_multiples_vanish(n as int, size);
    assert(n * size == size * n) by (nonlinear_arith);
    assert(n == 1 <==> n * size == size) by (nonlinear_arith)
        requires
            size > 0,
    ;
}

/// A constant that is read begins with an angle bracket and the name of its type, ends with an angle
/// bracket and white space, and has bytes for all of its elements, or for one that all are.
pub proof fn law_read_constant(
    ctx: Context,
    foreign: Seq<ForeignType>,
    t: Seq<char>,
    pos: int,
    order: ByteOrder,
)
    requires
        0 <= pos <= t.len(),
        dense_text::dense_at(ctx, foreign, t, pos, order) is Ok,
    ensures
        ({
            let (attr, end) = dense_text::dense_at(ctx, foreign, t, pos, order)->Ok_0;
            let name = text::spaces_end(t, text::spaces_end(t, pos + 1));
            &&& pos < t.len() && t[pos] == '<'
            &&& text::occurs_at(t, name, "tensor.ranked"@) || text::occurs_at(
                t,
                name,
                "memref.ranked"@,
            )
            &&& exists|close: int|
                close < t.len() && #[trigger] t[close] == '>' && end == text::spaces_end(
                    t,
                    close + 1,
                )
            &&& attributes::dense_verdict(ctx, attr.ty, attr.data.len()) is Ok
        }),
{
    reveal_strlit("<");
    reveal_strlit(">");
    let (ty, first) = dense_text::header_at(t, pos)->Ok_0;
    assert(text::occurs_at(t, pos, "<"@));
    assert(t[pos + 0] == "<"@[0]);
    let name = text::spaces_end(t, text::spaces_end(t, pos + 1));
    let stop = dense_text::type_name_end(t, name)->Some_0;
    let found = t.subrange(name, stop);
    tokens::lemma_spaces_end(t, pos + 1);
    tokens::lemma_spaces_end(t, text::spaces_end(t, pos + 1));
    text::lemma_run_end(t, name, CharClass::Word);
    let dot = text::run_end(t, name, CharClass::Word);
    text::lemma_run_end(t, dot + 1, CharClass::Word);
    assert forall|piece: Seq<char>| found == piece implies #[trigger] text::occurs_at(
        t,
        name,
        piece,
    ) by {
        assert forall|i: int| 0 <= i < piece.len() implies #[trigger] t[name + i] == piece[i] by {
            assert(found[i] == t[name + i]);
        }
    }
    if found == "tensor.ranked"@ {
        assert(text::occurs_at(t, name, "tensor.ranked"@));
    } else {
        assert(text::occurs_at(t, name, "memref.ranked"@));
    }
    let (data, behind) = dense_text::data_at(ty.element, t, first, order)->Ok_0;
    let close = text::spaces_end(t, behind);
    assert(text::occurs_at(t, close, ">"@));
    assert(t[close + 0] == ">"@[0]);
}

} // verus!
