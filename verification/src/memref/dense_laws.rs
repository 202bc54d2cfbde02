//! A constant that is written out and read again is the same.

use crate::bytes::ByteOrder;
use crate::ir;
use crate::ir::{Context, IntegerType, Signedness};
use crate::memref::attributes;
use crate::memref::attributes::{DenseElementsView, HexErr, ParseErr, MAX_ELEMENTS_AS_LITERALS};
use crate::memref::dense_text;
use crate::memref::dense_text::{ShapedKind, ShapedTextView};
use crate::memref::elements;
use crate::memref::elements::ElementType;
use crate::memref::hex;
use crate::memref::type_interfaces;
use crate::memref::type_interfaces::Dimension;
use crate::memref::type_text::ForeignType;
use crate::text;
use crate::text::CharClass;
use crate::tokens;
use vstd::prelude::*;

verus! {

/// Two words with a dot between them.
spec fn is_name(name: Seq<char>, dot: int) -> bool {
    &&& 0 < dot < name.len() - 1
    &&& name[dot] == '.'
    &&& forall|i: int|
        0 <= i < name.len() && i != dot ==> text::in_class(CharClass::Word, #[trigger] name[i])
}

proof fn lemma_name(t: Seq<char>, pos: int, name: Seq<char>, dot: int)
    requires
        text::occurs_at(t, pos, name),
        is_name(name, dot),
        pos + name.len() < t.len() ==> !text::in_class(CharClass::Word, t[pos + name.len()]),
    ensures
        dense_text::type_name_end(t, pos) == Some(pos + name.len()),
        t.subrange(pos, pos + name.len()) == name,
        text::spaces_end(t, pos) == pos,
{
    let end = pos + name.len();
    assert(t[pos + dot] == name[dot]);
    assert forall|i: int| pos <= i < pos + dot implies text::in_class(
        CharClass::Word,
        #[trigger] t[i],
    ) by {
        assert(t[pos + (i - pos)] == name[i - pos]);
    }
    text::lemma_run_ends_at(t, pos, pos + dot, CharClass::Word);
    assert forall|i: int| pos + dot + 1 <= i < end implies text::in_class(
        CharClass::Word,
        #[trigger] t[i],
    ) by {
        assert(t[pos + (i - pos)] == name[i - pos]);
    }
    text::lemma_run_ends_at(t, pos + dot + 1, end, CharClass::Word);
    assert forall|i: int| 0 <= i < name.len() implies t.subrange(pos, end)[i] == name[i] by {
        assert(t[pos + i] == name[i]);
    }
    assert(t.subrange(pos, end) =~= name);
    assert(t[pos + 0] == name[0]);
    assert(text::in_class(CharClass::Word, name[0]));
    tokens::lemma_spaces(t, pos, pos);
}

proof fn lemma_kind_name(kind: ShapedKind)
    ensures
        is_name(dense_text::kind_text(kind), 6),
        dense_text::kind_text(kind).len() == 13,
        "tensor.ranked"@ != "memref.ranked"@,
{
    reveal_strlit("tensor.ranked");
    reveal_strlit("memref.ranked");
    assert("tensor.ranked"@[0] == 't');
    assert("memref.ranked"@[0] == 'm');
}

proof fn lemma_element_name(element: ElementType)
    ensures
        is_name(dense_text::element_name(element), 7),
        "builtin.fp16"@ != "builtin.fp32"@,
        "builtin.fp16"@ != "builtin.fp64"@,
        "builtin.fp32"@ != "builtin.fp64"@,
        "builtin.integer"@.len() == 15,
        "builtin.fp16"@.len() == 12,
        "builtin.fp32"@.len() == 12,
        "builtin.fp64"@.len() == 12,
{
    reveal_strlit("builtin.fp16");
    reveal_strlit("builtin.fp32");
    reveal_strlit("builtin.fp64");
    reveal_strlit("builtin.integer");
    assert("builtin.fp16"@[10] == '1');
    assert("builtin.fp32"@[10] == '3');
    assert("builtin.fp64"@[10] == '6');
}

/// Dimensions are read as they are written.
proof fn lemma_some_dims(t: Seq<char>, pos: int, shape: Seq<Dimension>)
    requires
        shape.len() > 0,
        ({
            let all = text::joined(dense_text::dim_texts(shape), "x"@);
            text::occurs_at(t, pos, all + " :"@)
        }),
    ensures
        ({
            let all = text::joined(dense_text::dim_texts(shape), "x"@);
            &&& dense_text::some_dims_at(t, pos) == Ok::<(Seq<Dimension>, int), ParseErr>(
                (shape, pos + all.len() + 1),
            )
            &&& t[pos] == '?' || text::is_digit(t[pos])
            &&& pos < t.len()
        }),
    decreases shape.len(),
{
    reveal_strlit("x");
    reveal_strlit("?");
    reveal_strlit(" :");
    let pieces = dense_text::dim_texts(shape);
    let all = text::joined(pieces, "x"@);
    let first = dense_text::dim_text(shape[0]);
    let rest_shape = shape.skip(1);
    let rest_pieces = dense_text::dim_texts(rest_shape);
    assert(pieces.skip(1) =~= rest_pieces);
    let rest = if shape.len() == 1 {
        " :"@
    } else {
        "x"@ + (text::joined(rest_pieces, "x"@) + " :"@)
    };
    assert(all + " :"@ =~= first + rest);
    text::lemma_occurs_split(t, pos, first, rest);
    let end = pos + first.len();
    assert(t[end + 0] == rest[0]);
    match shape[0] {
        Dimension::Dynamic => {
            assert(t[pos + 0] == first[0]);
        },
        Dimension::Static(size) => {
            tokens::lemma_number(t, pos, size as nat, usize::MAX as nat);
        },
    }
    assert(dense_text::dim_at(t, pos) == Ok::<(Dimension, int), ParseErr>((shape[0], end)));
    if shape.len() == 1 {
        assert(t[end + 1] == rest[1]);
        tokens::lemma_spaces(t, end, end + 1);
        assert(seq![shape[0]] =~= shape);
    } else {
        tokens::lemma_spaces(t, end, end);
        text::lemma_occurs_split(t, end, "x"@, text::joined(rest_pieces, "x"@) + " :"@);
        lemma_some_dims(t, end + 1, rest_shape);
        tokens::lemma_spaces(t, end + 1, end + 1);
        assert(seq![shape[0]] + rest_shape =~= shape);
        assert(all.len() == first.len() + 1 + text::joined(rest_pieces, "x"@).len());
    }
}

/// An element type is read as it is written.
proof fn lemma_element_type(t: Seq<char>, pos: int, element: ElementType)
    requires
        text::occurs_at(t, pos, dense_text::element_type_text(element) + ">"@),
    ensures
        dense_text::element_type_at(t, pos) == Ok::<(ElementType, int), ParseErr>(
            (element, pos + dense_text::element_type_text(element).len()),
        ),
        !text::is_space(t[pos]),
{
    reveal_strlit(" ");
    reveal_strlit(">");
    let name = dense_text::element_name(element);
    let width = match element {
        ElementType::Integer(integer) => dense_text::sign_text(integer.signedness)
            + text::decimal(integer.width as nat),
        _ => Seq::empty(),
    };
    let whole = dense_text::element_type_text(element) + ">"@;
    assert(whole =~= name + (" "@ + (width + ">"@)));
    text::lemma_occurs_split(t, pos, name, " "@ + (width + ">"@));
    let end = pos + name.len();
    text::lemma_occurs_split(t, end, " "@, width + ">"@);
    text::lemma_occurs_split(t, end + 1, width, ">"@);
    assert(t[end + 0] == " "@[0]);
    lemma_element_name(element);
    lemma_name(t, pos, name, 7);
    assert(t[pos + 0] == name[0]);
    assert(text::in_class(CharClass::Word, name[0]));
    match element {
        ElementType::Integer(integer) => {
            lemma_integer_type(t, end + 1, integer);
            assert(!text::is_space(t[end + 1]));
            tokens::lemma_spaces(t, end, end + 1);
        },
        _ => {
            assert(t[end + 1 + 0] == ">"@[0]);
            tokens::lemma_spaces(t, end, end + 1);
        },
    }
}

/// The sign and width of an integer type are read as they are written.
proof fn lemma_integer_type(t: Seq<char>, pos: int, integer: IntegerType)
    requires
        ({
            let width = dense_text::sign_text(integer.signedness) + text::decimal(
                integer.width as nat,
            );
            text::occurs_at(t, pos, width) && text::occurs_at(t, pos + width.len(), ">"@)
        }),
    ensures
        dense_text::integer_at(t, pos) == Ok::<(IntegerType, int), ParseErr>(
            (
                integer,
                pos + dense_text::sign_text(integer.signedness).len() + text::decimal(
                    integer.width as nat,
                ).len(),
            ),
        ),
        !text::is_space(t[pos]),
{
    reveal_strlit("si");
    reveal_strlit("ui");
    reveal_strlit("i");
    reveal_strlit(">");
    let sign = dense_text::sign_text(integer.signedness);
    let digits = text::decimal(integer.width as nat);
    text::lemma_occurs_split(t, pos, sign, digits);
    let end = pos + sign.len() + digits.len();
    assert(t[end + 0] == ">"@[0]);
    tokens::lemma_number(t, pos + sign.len(), integer.width as nat, u32::MAX as nat);
    assert(t[pos + 0] == sign[0]);
    match integer.signedness {
        Signedness::Signed => {},
        Signedness::Unsigned => {
            assert(t[pos + 0] != "si"@[0]);
        },
        Signedness::Signless => {
            assert(t[pos + 0] != "si"@[0]);
            assert(t[pos + 0] != "ui"@[0]);
        },
    }
}

/// A type and the equals sign behind it are read as they are written.
proof fn lemma_header(t: Seq<char>, pos: int, ty: ShapedTextView)
    requires
        ({
            let header = "<"@ + dense_text::shaped_text(ty) + " = "@;
            &&& text::occurs_at(t, pos, header)
            &&& pos + header.len() < t.len()
            &&& !text::is_space(t[pos + header.len()])
        }),
    ensures
        dense_text::header_at(t, pos) == Ok::<(ShapedTextView, int), ParseErr>(
            (ty, pos + ("<"@ + dense_text::shaped_text(ty) + " = "@).len()),
        ),
{
    reveal_strlit("<");
    reveal_strlit(" = ");
    reveal_strlit("=");
    let body = dense_text::shaped_text(ty);
    let after = pos + 1 + body.len();
    text::lemma_occurs_split(t, pos, "<"@ + body, " = "@);
    text::lemma_occurs_split(t, pos, "<"@, body);
    assert(t[after + 0] == " = "@[0]);
    assert(t[after + 1] == " = "@[1]);
    assert(t[after + 2] == " = "@[2]);
    lemma_shaped(t, pos + 1, ty);
    assert(text::spaces_end(t, pos + 1) == pos + 1);
    assert(text::occurs_at(t, after + 1, "="@)) by {
        assert forall|i: int| 0 <= i < "="@.len() implies #[trigger] t[after + 1 + i]
            == "="@[i] by {}
    }
    tokens::lemma_spaced(t, after + 1, after + 1, "="@, after + 3);
}

/// The text of a shape and an element type in angle brackets.
spec fn ranked_text(ty: ShapedTextView) -> Seq<char> {
    " <"@ + (text::joined(dense_text::dim_texts(ty.shape), "x"@) + (" : "@ + (
    dense_text::element_type_text(ty.element) + ">"@)))
}

/// A shape and an element type are read as they are written.
proof fn lemma_ranked(t: Seq<char>, p1: int, ty: ShapedTextView)
    requires
        text::occurs_at(t, p1, ranked_text(ty)),
        ({
            let end = p1 + ranked_text(ty).len();
            end + 1 < t.len() && t[end] == ' ' && t[end + 1] == '='
        }),
    ensures
        dense_text::ranked_at(t, p1, ty.kind) == Ok::<(ShapedTextView, int), ParseErr>(
            (ty, p1 + ranked_text(ty).len() + 1),
        ),
        t[p1] == ' ',
{
    reveal_strlit(" <");
    reveal_strlit("<");
    reveal_strlit(" : ");
    reveal_strlit(" :");
    reveal_strlit(" ");
    reveal_strlit(":");
    reveal_strlit(">");
    let dims = text::joined(dense_text::dim_texts(ty.shape), "x"@);
    let element = dense_text::element_type_text(ty.element);
    text::lemma_occurs_split(t, p1, " <"@, dims + (" : "@ + (element + ">"@)));
    assert(t[p1 + 0] == ' ');
    assert(t[p1 + 1] == '<');
    let p2 = p1 + 2;
    assert(dims + (" : "@ + (element + ">"@)) =~= (dims + " :"@) + (" "@ + (element + ">"@)));
    text::lemma_occurs_split(t, p2, dims + " :"@, " "@ + (element + ">"@));
    text::lemma_occurs_split(t, p2, dims, " :"@);
    let p3 = p2 + dims.len();
    assert(t[p3 + 0] == ' ');
    assert(t[p3 + 1] == ':');
    text::lemma_occurs_split(t, p3 + 2, " "@, element + ">"@);
    assert(t[p3 + 2 + 0] == ' ');
    let p4 = p3 + 3 + element.len();
    text::lemma_occurs_split(t, p3 + 3, element, ">"@);
    assert(t[p4 + 0] == '>');
    lemma_element_type(t, p3 + 3, ty.element);
    assert(text::occurs_at(t, p1 + 1, "<"@)) by {
        assert forall|i: int| 0 <= i < "<"@.len() implies #[trigger] t[p1 + 1 + i] == "<"@[i] by {}
    }
    assert(text::occurs_at(t, p3 + 1, ":"@)) by {
        assert forall|i: int| 0 <= i < ":"@.len() implies #[trigger] t[p3 + 1 + i] == ":"@[i] by {}
    }
    let first = if ty.shape.len() == 0 {
        p3 + 1
    } else {
        p2
    };
    if ty.shape.len() == 0 {
        assert(dims =~= Seq::<char>::empty());
        assert(ty.shape =~= Seq::<Dimension>::empty());
    } else {
        lemma_some_dims(t, p2, ty.shape);
    }
    tokens::lemma_spaced(t, p1, p1 + 1, "<"@, first);
    assert(dense_text::dims_at(t, first) == Ok::<(Seq<Dimension>, int), ParseErr>(
        (ty.shape, p3 + 1),
    ));
    tokens::lemma_spaced(t, p3 + 1, p3 + 1, ":"@, p3 + 3);
    tokens::lemma_spaced(t, p4, p4, ">"@, p4 + 2);
}

/// A type is read as it is written.
proof fn lemma_shaped(t: Seq<char>, pos: int, ty: ShapedTextView)
    requires
        text::occurs_at(t, pos, dense_text::shaped_text(ty)),
        ({
            let end = pos + dense_text::shaped_text(ty).len();
            end + 1 < t.len() && t[end] == ' ' && t[end + 1] == '='
        }),
    ensures
        dense_text::shaped_at(t, pos) == Ok::<(ShapedTextView, int), ParseErr>(
            (ty, pos + dense_text::shaped_text(ty).len() + 1),
        ),
        text::spaces_end(t, pos) == pos,
{
    let name = dense_text::kind_text(ty.kind);
    lemma_kind_name(ty.kind);
    assert(dense_text::shaped_text(ty) =~= name + ranked_text(ty));
    text::lemma_occurs_split(t, pos, name, ranked_text(ty));
    let p1 = pos + name.len();
    lemma_ranked(t, p1, ty);
    lemma_name(t, pos, name, 6);
}

/// The text of an element that reads back is a literal.
proof fn lemma_element_text(element: ElementType, data: Seq<u8>, order: ByteOrder)
    requires
        data.len() == element.size(),
        element.has_bits(),
        elements::reads_back(element, data, order),
    ensures
        ({
            let literal = elements::element_text(element, data, order);
            &&& literal.len() > 0
            &&& !text::is_space(literal[0])
            &&& element is Integer ==> tokens::is_sign(literal[0]) || text::is_digit(literal[0])
        }),
{
    let literal = elements::element_text(element, data, order);
    match element {
        ElementType::Integer(integer) => {
            let width = integer.width as nat;
            let value = elements::int_value(data, width, order);
            text::law_decimal(value);
            if literal[0] != '-' {
                assert(text::is_digit(text::decimal(value)[0]));
            }
        },
        _ => {
            assert(elements::is_float_literal(literal));
            assert(text::in_class(CharClass::Literal, literal[0]));
        },
    }
}

/// Elements are read as they are written, from the `i`-th one on.
proof fn lemma_some_elements(
    element: ElementType,
    data: Seq<u8>,
    order: ByteOrder,
    t: Seq<char>,
    pos: int,
    i: int,
)
    requires
        element.has_bits(),
        element.size() > 0,
        data.len() % element.size() == 0,
        0 <= i < data.len() / element.size(),
        forall|k: int|
            0 <= k < data.len() / element.size() ==> elements::reads_back(
                element,
                #[trigger] dense_text::element_bytes(data, element.size(), k),
                order,
            ),
        text::occurs_at(
            t,
            pos,
            text::joined(dense_text::element_texts(element, data, order).skip(i), ", "@) + "]"@,
        ),
    ensures
        ({
            let all = text::joined(
                dense_text::element_texts(element, data, order).skip(i),
                ", "@,
            );
            dense_text::some_elements_at(element, t, pos, order) == Ok::<
                (Seq<u8>, int),
                ParseErr,
            >((data.skip(i * element.size()), pos + all.len()))
        }),
        pos < t.len(),
        !text::is_space(t[pos]),
        element is Integer ==> tokens::is_sign(t[pos]) || text::is_digit(t[pos]),
    decreases data.len() / element.size() - i,
{
    reveal_strlit(", ");
    reveal_strlit(",");
    reveal_strlit(" ");
    reveal_strlit("]");
    let size = element.size();
    let n = data.len() / size;
    let texts = dense_text::element_texts(element, data, order);
    let pieces = texts.skip(i);
    let all = text::joined(pieces, ", "@);
    let piece = dense_text::element_bytes(data, size, i);
    let first = elements::element_text(element, piece, order);
    assert(pieces[0] == first);
    assert(pieces.skip(1) =~= texts.skip(i + 1));
    lemma_range(data.len(), size, i);
    let rest = if i + 1 == n {
        "]"@
    } else {
        ", "@ + (text::joined(texts.skip(i + 1), ", "@) + "]"@)
    };
    assert(all + "]"@ =~= first + rest);
    text::lemma_occurs_split(t, pos, first, rest);
    let end = pos + first.len();
    assert(t[end + 0] == rest[0]);
    lemma_element_text(element, piece, order);
    assert(t[pos + 0] == first[0]);
    elements::law_element_round_trip(element, piece, order, t, pos);
    tokens::lemma_spaces(t, end, end);
    if i + 1 == n {
        assert(data.skip(i * size) =~= piece);
    } else {
        assert(t[end + 1] == rest[1]);
        text::lemma_occurs_split(
            t,
            end,
            ", "@,
            text::joined(texts.skip(i + 1), ", "@) + "]"@,
        );
        lemma_some_elements(element, data, order, t, end + 2, i + 1);
        tokens::lemma_spaces(t, end + 1, end + 2);
        assert(piece + data.skip((i + 1) * size) =~= data.skip(i * size));
        assert(all.len() == first.len() + 2 + text::joined(texts.skip(i + 1), ", "@).len());
    }
}

/// Where the bytes of an element stand.
proof fn lemma_range(len: nat, size: nat, i: int)
    requires
        size > 0,
        len % size == 0,
        0 <= i < len / size,
    ensures
        0 <= i * size,
        i * size + size == (i + 1) * size,
        (i + 1) * size <= len,
        i + 1 == len / size ==> (i + 1) * size == len,
{
    assert(i * size + size == (i + 1) * size) by (nonlinear_arith);
    assert(0 <= i * size) by (nonlinear_arith)
        requires
            0 <= i,
            size > 0,
    ;
    vstd::arithmetic::div_mod::lemma_fundamental_div_mod(len as int, size as int);
    assert((i + 1) * size <= (len / size) * size) by (nonlinear_arith)
        requires
            i + 1 <= len / size,
            size > 0,
    ;
    assert((len / size) * size == size * (len / size)) by (nonlinear_arith);
}

/// A splat is read as it is written.
proof fn lemma_splat(
    element: ElementType,
    data: Seq<u8>,
    order: ByteOrder,
    t: Seq<char>,
    pos: int,
)
    requires
        element.has_bits(),
        data.len() == element.size(),
        elements::reads_back(element, data, order),
        text::occurs_at(
            t,
            pos,
            "splat "@ + elements::element_text(element, data, order) + ">"@,
        ),
    ensures
        dense_text::data_at(element, t, pos, order) == Ok::<(Seq<u8>, int), ParseErr>(
            (data, pos + 6 + elements::element_text(element, data, order).len()),
        ),
        t[pos] == 's',
        "splat "@.len() == 6,
{
    reveal_strlit("splat ");
    reveal_strlit("splat");
    reveal_strlit(">");
    let literal = elements::element_text(element, data, order);
    text::lemma_occurs_split(t, pos, "splat "@ + literal, ">"@);
    text::lemma_occurs_split(t, pos, "splat "@, literal);
    assert(t[pos + 6 + literal.len() + 0] == '>');
    assert(text::occurs_at(t, pos, "splat"@)) by {
        assert forall|i: int| 0 <= i < "splat"@.len() implies #[trigger] t[pos + i]
            == "splat"@[i] by {
            assert(t[pos + i] == "splat "@[i]);
        }
    }
    assert(t[pos + 0] == 's');
    assert(t[pos + 5] == ' ');
    lemma_element_text(element, data, order);
    assert(t[pos + 6 + 0] == literal[0]);
    tokens::lemma_spaces(t, pos + 5, pos + 6);
    elements::law_element_round_trip(element, data, order, t, pos + 6);
}

/// Digits in quotes, behind `0x`.
proof fn lemma_quoted(digits: Seq<char>)
    ensures
        "\"0x"@ + digits + "\""@ == "\""@ + (("0x"@ + digits) + "\""@),
{
    reveal_strlit("\"");
    reveal_strlit("\"0x");
    reveal_strlit("0x");
    assert("\"0x"@ + digits + "\""@ =~= "\""@ + (("0x"@ + digits) + "\""@));
}

/// A string in quotes that stands for bytes is read as them.
proof fn lemma_decoded_string(s: Seq<char>, data: Seq<u8>, t: Seq<char>, pos: int)
    requires
        text::occurs_at(t, pos, "\""@ + (s + "\""@)),
        forall|i: int| 0 <= i < s.len() ==> #[trigger] s[i] != '"' && s[i] != '\\',
        hex::decoded(s) == Ok::<Seq<u8>, HexErr>(data),
    ensures
        dense_text::hex_at(t, pos) == Ok::<(Seq<u8>, int), ParseErr>(
            (data, pos + ("\""@ + (s + "\""@)).len()),
        ),
        t[pos] == '"',
{
    reveal_strlit("\"");
    text::lemma_occurs_split(t, pos, "\""@, s + "\""@);
    assert(t[pos + 0] == '"');
    hex::lemma_plain_string(t, pos + 1, s);
}

/// Hexadecimal digits are read as they are written.
proof fn lemma_hex_data(
    element: ElementType,
    data: Seq<u8>,
    order: ByteOrder,
    t: Seq<char>,
    pos: int,
)
    requires
        text::occurs_at(t, pos, hex::hex_text(data)),
    ensures
        dense_text::data_at(element, t, pos, order) == Ok::<(Seq<u8>, int), ParseErr>(
            (data, pos + hex::hex_text(data).len()),
        ),
        t[pos] == '"',
{
    lemma_quoted(hex::hex_digits(data));
    hex::lemma_hex_is_plain(data);
    hex::law_hex_round_trip(data);
    lemma_decoded_string("0x"@ + hex::hex_digits(data), data, t, pos);
    reveal_strlit("splat");
    reveal_strlit("[");
    assert(t[pos + 0] != "splat"@[0]);
    assert(t[pos + 0] != "["@[0]);
}

/// Elements in brackets are read as they are written.
proof fn lemma_element_list(
    element: ElementType,
    data: Seq<u8>,
    order: ByteOrder,
    t: Seq<char>,
    pos: int,
)
    requires
        element.has_bits(),
        element.size() > 0,
        data.len() % element.size() == 0,
        forall|k: int|
            0 <= k < data.len() / element.size() ==> elements::reads_back(
                element,
                #[trigger] dense_text::element_bytes(data, element.size(), k),
                order,
            ),
        element is Integer || data.len() > 0,
        text::occurs_at(
            t,
            pos,
            "["@ + text::joined(dense_text::element_texts(element, data, order), ", "@) + "]"@,
        ),
    ensures
        dense_text::data_at(element, t, pos, order) == Ok::<(Seq<u8>, int), ParseErr>(
            (
                data,
                pos + 2 + text::joined(
                    dense_text::element_texts(element, data, order),
                    ", "@,
                ).len(),
            ),
        ),
        t[pos] == '[',
        "["@.len() == 1,
        "]"@.len() == 1,
{
    reveal_strlit("splat");
    reveal_strlit("[");
    reveal_strlit("]");
    let size = element.size();
    let texts = dense_text::element_texts(element, data, order);
    let all = text::joined(texts, ", "@);
    assert("["@ + all + "]"@ =~= "["@ + (all + "]"@));
    text::lemma_occurs_split(t, pos, "["@, all + "]"@);
    text::lemma_occurs_split(t, pos + 1, all, "]"@);
    assert(t[pos + 0] == '[');
    assert(t[pos + 0] != "splat"@[0]);
    if data.len() == 0 {
        assert(data.len() / size == 0) by (nonlinear_arith)
            requires
                data.len() == 0,
                size > 0,
        ;
        assert(texts =~= Seq::<Seq<char>>::empty());
        assert(all =~= Seq::<char>::empty());
        assert(t[pos + 1 + 0] == ']');
        tokens::lemma_spaces(t, pos + 1, pos + 1);
        assert(data =~= Seq::<u8>::empty());
    } else {
        vstd::arithmetic::div_mod::lemma_fundamental_div_mod(data.len() as int, size as int);
        assert(data.len() / size > 0) by (nonlinear_arith)
            requires
                data.len() == size * (data.len() / size),
                data.len() > 0,
                size > 0,
        ;
        assert(texts.skip(0) =~= texts);
        lemma_some_elements(element, data, order, t, pos + 1, 0);
        tokens::lemma_spaces(t, pos + 1, pos + 1);
        assert(data.skip(0) =~= data);
        assert(0 * size == 0);
    }
}

/// Elements are read as they are written, but for no floating-point numbers at all.
proof fn lemma_data(
    element: ElementType,
    data: Seq<u8>,
    order: ByteOrder,
    t: Seq<char>,
    pos: int,
)
    requires
        element.has_bits(),
        element.size() > 0,
        data.len() % element.size() == 0,
        dense_text::all_read_back(element, data, order),
        element is Integer || data.len() > 0,
        text::occurs_at(t, pos, dense_text::data_text(element, data, order) + ">"@),
    ensures
        dense_text::data_at(element, t, pos, order) == Ok::<(Seq<u8>, int), ParseErr>(
            (data, pos + dense_text::data_text(element, data, order).len()),
        ),
        !text::is_space(t[pos]),
{
    if data.len() == element.size() {
        lemma_splat(element, data, order, t, pos);
    } else {
        text::lemma_occurs_split(t, pos, dense_text::data_text(element, data, order), ">"@);
        if data.len() / element.size() > MAX_ELEMENTS_AS_LITERALS {
            lemma_hex_data(element, data, order, t, pos);
        } else {
            lemma_element_list(element, data, order, t, pos);
        }
    }
}

/// A constant that is written out and read again is the same, if each of its elements is. It
/// holds whatever surrounds the text and whatever types of other dialects are known. Text without any floating-point number is not read, so
/// a constant without elements has to be one of integers.
pub proof fn law_text_round_trip(
    ctx: Context,
    foreign: Seq<ForeignType>,
    attr: DenseElementsView,
    order: ByteOrder,
    t: Seq<char>,
    pos: int,
)
    requires
        ctx.wf(),
        attr.valid(ctx),
        text::occurs_at(
            t,
            pos,
            dense_text::dense_text(
                dense_text::shaped_text_of(ctx, attr.ty),
                attr.data,
                order,
            ),
        ),
        attributes::dense_element(ctx, attr.ty)->0 is Integer || attr.data.len() > 0,
    ensures
        dense_text::all_read_back(attributes::dense_element(ctx, attr.ty)->0, attr.data, order)
            ==> dense_text::dense_at(ctx, foreign, t, pos, order) == Ok::<
            (DenseElementsView, int),
            ParseErr,
        >(
            (
                attr,
                text::spaces_end(
                    t,
                    pos + dense_text::dense_text(
                        dense_text::shaped_text_of(ctx, attr.ty),
                        attr.data,
                        order,
                    ).len(),
                ),
            ),
        ),
{
    let ty = dense_text::shaped_text_of(ctx, attr.ty);
    let element = ty.element;
    if dense_text::all_read_back(element, attr.data, order) {
        reveal_strlit(">");
        let header = "<"@ + dense_text::shaped_text(ty) + " = "@;
        let data = dense_text::data_text(element, attr.data, order);
        let whole = dense_text::dense_text(ty, attr.data, order);
        assert(whole =~= header + (data + ">"@));
        text::lemma_occurs_split(t, pos, header, data + ">"@);
        let first = pos + header.len();
        text::lemma_occurs_split(t, first, data, ">"@);
        let close = first + data.len();
        assert(t[close + 0] == '>');
        let shape = ty.shape;
        let size = element.size();
        let n = type_interfaces::static_elements(shape);
        assert(attr.data.len() % size == 0) by {
            if attr.data.len() == n * size {
                vstd::arithmetic::div_mod::lemma_mod_multiples_basic(n as int, size as int);
            } else {
                vstd::arithmetic::div_mod::lemma_mod_self_0(size as int);
            }
        }
        lemma_data(element, attr.data, order, t, first);
        lemma_header(t, pos, ty);
        tokens::lemma_spaces(t, close, close);
        assert(tokens::spaced_at(t, close, ">"@) == Ok::<int, ParseErr>(
            text::spaces_end(t, close + 1),
        ));
        let element_type = attributes::shaped(ctx, attr.ty)->0.element_type;
        ir::lemma_handle_of(ctx, element_type);
        ir::lemma_handle_of(ctx, attr.ty);
        assert(dense_text::element_view(element) == ctx.get(element_type));
        assert(ty.type_view(ctx) == ctx.get(attr.ty));
    }
}

} // verus!
