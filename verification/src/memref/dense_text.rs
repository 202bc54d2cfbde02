//! Constants as text: a type, and the elements as literals or as hexadecimal digits.

use crate::bytes;
use crate::bytes::ByteOrder;
use crate::ir;
use crate::ir::{Context, IntegerType, Signedness, TypeHandle, TypeView};
use crate::memref::attributes;
use crate::memref::attributes::{
    DenseElementsAttr, DenseElementsErr, DenseElementsView, ParseErr, ShapedTypeHandle,
    MAX_ELEMENTS_AS_LITERALS,
};
use crate::memref::dense_laws;
use crate::memref::elements;
use crate::memref::elements::ElementType;
use crate::memref::hex;
use crate::memref::type_interfaces;
use crate::memref::type_interfaces::Dimension;
use crate::memref::type_text;
use crate::memref::type_text::{ForeignType, TypeTree};
use crate::memref::types::RankedMemrefType;
use crate::row_major;
use crate::tensor::types::RankedTensorType;
use crate::text;
use crate::text::CharClass;
use crate::tokens;
use vstd::prelude::*;

verus! {

/// Whether a type with a shape is a tensor or a memref.
#[derive(Clone, Copy, Debug, PartialEq, Eq, Structural)]
pub enum ShapedKind {
    Tensor,
    Memref,
}

/// What a [ShapedText] is.
#[verifier::ext_equal]
pub struct ShapedTextView {
    pub kind: ShapedKind,
    pub shape: Seq<Dimension>,
    pub element: ElementType,
}

/// The type of a constant, apart from any context.
#[derive(Debug)]
pub struct ShapedText {
    pub kind: ShapedKind,
    pub shape: Vec<Dimension>,
    pub element: ElementType,
}

impl View for ShapedText {
    type V = ShapedTextView;

    open spec fn view(&self) -> ShapedTextView {
        ShapedTextView { kind: self.kind, shape: self.shape@, element: self.element }
    }
}

/// The type that an element is of.
pub open spec fn element_view(element: ElementType) -> TypeView {
    match element {
        ElementType::Half => TypeView::FP16,
        ElementType::Single => TypeView::FP32,
        ElementType::Double => TypeView::FP64,
        ElementType::Integer(integer) => TypeView::Integer(integer),
    }
}

impl ShapedTextView {
    /// The handle of the element type.
    pub open spec fn element_handle(self, ctx: Context) -> TypeHandle {
        ctx.handle_of(element_view(self.element))
    }

    /// The type.
    pub open spec fn type_view(self, ctx: Context) -> TypeView {
        let element_type = self.element_handle(ctx);
        match self.kind {
            ShapedKind::Tensor => TypeView::RankedTensor { element_type, shape: self.shape },
            ShapedKind::Memref => TypeView::RankedMemref { element_type, shape: self.shape },
        }
    }

    /// The context holds the type and that of its elements.
    pub open spec fn held(self, ctx: Context) -> bool {
        ctx.holds(element_view(self.element)) && ctx.holds(self.type_view(ctx))
    }

    /// The handle of the type.
    pub open spec fn handle(self, ctx: Context) -> ShapedTypeHandle {
        ctx.handle_of(self.type_view(ctx))
    }
}

/// The type of a constant.
pub open spec fn shaped_text_of(ctx: Context, ty: ShapedTypeHandle) -> ShapedTextView {
    ShapedTextView {
        kind: if ctx.as_tensor(ty) is Some {
            ShapedKind::Tensor
        } else {
            ShapedKind::Memref
        },
        shape: attributes::shaped(ctx, ty)->0.shape,
        element: attributes::dense_element(ctx, ty)->0,
    }
}

// Printing
pub open spec fn kind_text(kind: ShapedKind) -> Seq<char> {
    match kind {
        ShapedKind::Tensor => "tensor.ranked"@,
        ShapedKind::Memref => "memref.ranked"@,
    }
}

pub open spec fn sign_text(signedness: Signedness) -> Seq<char> {
    match signedness {
        Signedness::Signed => "si"@,
        Signedness::Unsigned => "ui"@,
        Signedness::Signless => "i"@,
    }
}

pub open spec fn element_name(element: ElementType) -> Seq<char> {
    match element {
        ElementType::Half => "builtin.fp16"@,
        ElementType::Single => "builtin.fp32"@,
        ElementType::Double => "builtin.fp64"@,
        ElementType::Integer(_) => "builtin.integer"@,
    }
}

/// The text of an element type.
pub open spec fn element_type_text(element: ElementType) -> Seq<char> {
    element_name(element) + " "@ + match element {
        ElementType::Integer(integer) => sign_text(integer.signedness) + text::decimal(
            integer.width as nat,
        ),
        _ => Seq::empty(),
    }
}

pub open spec fn dim_text(dim: Dimension) -> Seq<char> {
    match dim {
        Dimension::Dynamic => "?"@,
        Dimension::Static(size) => text::decimal(size as nat),
    }
}

pub open spec fn dim_texts(shape: Seq<Dimension>) -> Seq<Seq<char>> {
    Seq::new(shape.len(), |i: int| dim_text(shape[i]))
}

/// The text of a type.
pub open spec fn shaped_text(ty: ShapedTextView) -> Seq<char> {
    kind_text(ty.kind) + " <"@ + text::joined(dim_texts(ty.shape), "x"@) + " : "@
        + element_type_text(ty.element) + ">"@
}

/// The bytes of an element.
pub open spec fn element_bytes(data: Seq<u8>, size: nat, i: int) -> Seq<u8> {
    data.subrange(i * size, (i + 1) * size)
}

/// The text of each element.
pub open spec fn element_texts(element: ElementType, data: Seq<u8>, order: ByteOrder) -> Seq<
    Seq<char>,
> {
    Seq::new(
        data.len() / element.size(),
        |i: int|
            elements::element_text(element, element_bytes(data, element.size(), i), order),
    )
}

/// The text of elements: the one element of a splat, all of them if they are few, and
/// hexadecimal digits otherwise.
pub open spec fn data_text(element: ElementType, data: Seq<u8>, order: ByteOrder) -> Seq<char> {
    if data.len() == element.size() {
        "splat "@ + elements::element_text(element, data, order)
    } else if data.len() / element.size() > MAX_ELEMENTS_AS_LITERALS {
        hex::hex_text(data)
    } else {
        "["@ + text::joined(element_texts(element, data, order), ", "@) + "]"@
    }
}

/// The text of a constant.
pub open spec fn dense_text(ty: ShapedTextView, data: Seq<u8>, order: ByteOrder) -> Seq<char> {
    "<"@ + shaped_text(ty) + " = "@ + data_text(ty.element, data, order) + ">"@
}

/// Each element reads back from its text.
pub open spec fn all_read_back(element: ElementType, data: Seq<u8>, order: ByteOrder) -> bool {
    if data.len() == element.size() {
        elements::reads_back(element, data, order)
    } else if data.len() / element.size() > MAX_ELEMENTS_AS_LITERALS {
        true
    } else {
        forall|i: int|
            0 <= i < data.len() / element.size() ==> elements::reads_back(
                element,
                #[trigger] element_bytes(data, element.size(), i),
                order,
            )
    }
}

/// Each element that is written as a literal is a number.
pub open spec fn all_numbers(element: ElementType, data: Seq<u8>, order: ByteOrder) -> bool {
    if data.len() == element.size() {
        elements::holds_number(element, data, order)
    } else if data.len() / element.size() > MAX_ELEMENTS_AS_LITERALS {
        true
    } else {
        forall|i: int|
            0 <= i < data.len() / element.size() ==> elements::holds_number(
                element,
                #[trigger] element_bytes(data, element.size(), i),
                order,
            )
    }
}

fn push_element_type(out: &mut Vec<char>, element: ElementType)
    ensures
        final(out)@ == old(out)@ + element_type_text(element),
{
    match element {
        ElementType::Half => text::push_str(out, "builtin.fp16"),
        ElementType::Single => text::push_str(out, "builtin.fp32"),
        ElementType::Double => text::push_str(out, "builtin.fp64"),
        ElementType::Integer(_) => text::push_str(out, "builtin.integer"),
    }
    text::push_str(out, " ");
    if let ElementType::Integer(integer) = element {
        match integer.signedness {
            Signedness::Signed => text::push_str(out, "si"),
            Signedness::Unsigned => text::push_str(out, "ui"),
            Signedness::Signless => text::push_str(out, "i"),
        }
        let width: Vec<char> = text::make_decimal(integer.width as usize);
        text::push_text(out, width.as_slice());
    }
    assert(out@ =~= old(out)@ + element_type_text(element));
}

fn push_dims(out: &mut Vec<char>, shape: &Vec<Dimension>)
    ensures
        final(out)@ == old(out)@ + text::joined(dim_texts(shape@), "x"@),
{
    let ghost start = out@;
    let mut i: usize = 0;
    assert(dim_texts(shape@.take(0)) =~= Seq::<Seq<char>>::empty());
    while i < shape.len()
        invariant
            i <= shape@.len(),
            out@ == start + text::joined(dim_texts(shape@.take(i as int)), "x"@),
        decreases shape@.len() - i,
    {
        proof {
            let before = dim_texts(shape@.take(i as int));
            assert(dim_texts(shape@.take(i + 1)) =~= before.push(dim_text(shape@[i as int])));
            text::lemma_joined_push(before, "x"@, dim_text(shape@[i as int]));
        }
        if i > 0 {
            text::push_str(out, "x");
        }
        match shape[i] {
            Dimension::Dynamic => text::push_str(out, "?"),
            Dimension::Static(size) => {
                let digits: Vec<char> = text::make_decimal(size);
                text::push_text(out, digits.as_slice());
            },
        }
        i += 1;
        assert(out@ =~= start + text::joined(dim_texts(shape@.take(i as int)), "x"@));
    }
    assert(shape@.take(shape@.len() as int) =~= shape@);
}

/// Appends the text of a type.
pub fn push_shaped(out: &mut Vec<char>, ty: &ShapedText)
    ensures
        final(out)@ == old(out)@ + shaped_text(ty@),
{
    match ty.kind {
        ShapedKind::Tensor => text::push_str(out, "tensor.ranked"),
        ShapedKind::Memref => text::push_str(out, "memref.ranked"),
    }
    text::push_str(out, " <");
    push_dims(out, &ty.shape);
    text::push_str(out, " : ");
    push_element_type(out, ty.element);
    text::push_str(out, ">");
    assert(out@ =~= old(out)@ + shaped_text(ty@));
}

fn push_element_list(out: &mut Vec<char>, element: ElementType, data: &[u8], order: ByteOrder)
    requires
        element.has_bits(),
        element.size() > 0,
    ensures
        final(out)@ == old(out)@ + text::joined(element_texts(element, data@, order), ", "@),
        forall|i: int|
            0 <= i < data@.len() / element.size() && elements::holds_number(
                element,
                #[trigger] element_bytes(data@, element.size(), i),
                order,
            ) ==> elements::reads_back(
                element,
                element_bytes(data@, element.size(), i),
                order,
            ),
{
    let ghost start = out@;
    let ghost all = element_texts(element, data@, order);
    let size: usize = element.element_size();
    let len: usize = data.len();
    let n: usize = len / size;
    let mut i: usize = 0;
    assert(all.take(0) =~= Seq::<Seq<char>>::empty());
    while i < n
        invariant
            len == data@.len(),
            i <= n == data@.len() / element.size(),
            size == element.size(),
            size > 0,
            element.has_bits(),
            all == element_texts(element, data@, order),
            out@ == start + text::joined(all.take(i as int), ", "@),
            forall|k: int|
                0 <= k < i && elements::holds_number(
                    element,
                    #[trigger] element_bytes(data@, element.size(), k),
                    order,
                ) ==> elements::reads_back(
                    element,
                    element_bytes(data@, element.size(), k),
                    order,
                ),
        decreases n - i,
    {
        proof {
            assert(all.take(i + 1) =~= all.take(i as int).push(all[i as int]));
            text::lemma_joined_push(all.take(i as int), ", "@, all[i as int]);
            lemma_element_range(data@.len(), size as nat, i as int);
        }
        if i > 0 {
            text::push_str(out, ", ");
        }
        let piece: &[u8] = vstd::slice::slice_subrange(data, i * size, (i + 1) * size);
        let literal: Vec<char> = elements::print_element(element, piece, order);
        text::push_text(out, literal.as_slice());
        i += 1;
        assert(out@ =~= start + text::joined(all.take(i as int), ", "@));
    }
    assert(all.take(n as int) =~= all);
}

/// The bytes of each element are bytes of the constant.
proof fn lemma_element_range(len: nat, size: nat, i: int)
    requires
        size > 0,
        0 <= i < len / size,
    ensures
        0 <= i * size,
        i * size + size == (i + 1) * size,
        (i + 1) * size <= len,
{
    assert(i * size + size == (i + 1) * size) by (nonlinear_arith);
    assert(0 <= i * size) by (nonlinear_arith)
        requires
            0 <= i,
            size > 0,
    ;
    vstd::arithmetic::div_mod::lemma_fundamental_div_mod(len as int, size as int);
    assert((i + 1) * size <= (len / size) * size) by (nonlinear_arith)
        requires
            i + 1 <= len / size,
            size > 0,
    ;
    assert((len / size) * size == size * (len / size)) by (nonlinear_arith);
}

/// Appends the text of elements.
pub fn push_data(out: &mut Vec<char>, element: ElementType, data: &[u8], order: ByteOrder)
    requires
        element.has_bits(),
        element.size() > 0,
    ensures
        final(out)@ == old(out)@ + data_text(element, data@, order),
        all_numbers(element, data@, order) ==> all_read_back(element, data@, order),
{
    let size: usize = element.element_size();
    if data.len() == size {
        text::push_str(out, "splat ");
        let literal: Vec<char> = elements::print_element(element, data, order);
        text::push_text(out, literal.as_slice());
    } else if data.len() / size > MAX_ELEMENTS_AS_LITERALS {
        hex::push_hex(out, data);
    } else {
        text::push_str(out, "[");
        push_element_list(out, element, data, order);
        text::push_str(out, "]");
    }
    assert(out@ =~= old(out)@ + data_text(element, data@, order));
}

fn read_shaped_text(ctx: &Context, ty: ShapedTypeHandle) -> (r: ShapedText)
    requires
        attributes::has_shaped(*ctx, ty),
        attributes::dense_element(*ctx, ty) is Some,
    ensures
        r@ == shaped_text_of(*ctx, ty),
{
    let kind: ShapedKind = match ctx.ranked_tensor(ty) {
        Some(_) => ShapedKind::Tensor,
        None => ShapedKind::Memref,
    };
    let (element_type, shape) = attributes::read_shaped(ctx, ty);
    let element: ElementType = match elements::find_element_type(ctx, element_type) {
        Some(element) => element,
        None => ElementType::Half,
    };
    ShapedText { kind, shape: type_interfaces::copy_shape(shape), element }
}

impl DenseElementsAttr {
    /// The text of the constant, its floating-point numbers taken in the given byte order. It
    /// is read as the same constant, if no element is a NaN and no integer has bits that it
    /// does not use.
    pub fn print_ordered(&self, ctx: &Context, order: ByteOrder) -> (r: Vec<char>)
        requires
            self@.valid(*ctx),
        ensures
            r@ == dense_text(shaped_text_of(*ctx, self@.ty), self@.data, order),
            ({
                let element = attributes::dense_element(*ctx, self@.ty)->0;
                ctx.wf() && all_numbers(element, self@.data, order) && (element is Integer
                    || self@.data.len() > 0)
            }) ==> forall|foreign: Seq<ForeignType>| #[trigger]
                dense_at(*ctx, foreign, r@, 0, order) == Ok::<(DenseElementsView, int), ParseErr>(
                    (self@, r@.len() as int),
                ),
    {
        let ty: ShapedText = read_shaped_text(ctx, self.ty());
        let mut out: Vec<char> = Vec::new();
        text::push_str(&mut out, "<");
        push_shaped(&mut out, &ty);
        text::push_str(&mut out, " = ");
        push_data(&mut out, ty.element, self.raw_data(), order);
        text::push_str(&mut out, ">");
        proof {
            let whole = dense_text(shaped_text_of(*ctx, self@.ty), self@.data, order);
            assert(out@ =~= whole);
            assert(text::occurs_at(out@, 0, whole));
            if ctx.wf() && (ty.element is Integer || self@.data.len() > 0) {
                assert forall|foreign: Seq<ForeignType>|
                    all_read_back(ty.element, self@.data, order) implies #[trigger] dense_at(
                    *ctx,
                    foreign,
                    out@,
                    0,
                    order,
                ) == Ok::<(DenseElementsView, int), ParseErr>((self@, out@.len() as int)) by {
                    dense_laws::law_text_round_trip(*ctx, foreign, self@, order, out@, 0);
                }
            }
        }
        out
    }

    /// The text of the constant, its floating-point numbers taken in the byte order of the
    /// machine.
    pub fn print(&self, ctx: &Context) -> (r: Vec<char>)
        requires
            self@.valid(*ctx),
        ensures
            exists|order: ByteOrder|
                r@ == #[trigger] dense_text(
                    shaped_text_of(*ctx, self@.ty),
                    self@.data,
                    order,
                ),
    {
        self.print_ordered(ctx, bytes::native_byte_order())
    }
}

// Parsing
/// The dimension at `pos`, and where it ends.
pub open spec fn dim_at(t: Seq<char>, pos: int) -> Result<(Dimension, int), ParseErr> {
    if pos < t.len() && t[pos] == '?' {
        Ok((Dimension::Dynamic, pos + 1))
    } else {
        match tokens::number_at(t, pos, usize::MAX as nat) {
            Ok((n, end)) => Ok((Dimension::Static(n as usize), end)),
            Err(error) => Err(error),
        }
    }
}

/// One or more dimensions at `pos` with an `x` between them, and where they and the white
/// space behind them end.
pub open spec fn some_dims_at(t: Seq<char>, pos: int) -> Result<(Seq<Dimension>, int), ParseErr>
    decreases t.len() - pos,
    when 0 <= pos <= t.len()
{
    match dim_at(t, pos) {
        Err(error) => Err(error),
        Ok((dim, end)) => {
            proof {
                tokens::lemma_number_end(t, pos);
                tokens::lemma_spaces_end(t, end);
                let next = text::spaces_end(t, end);
                if next < t.len() {
                    tokens::lemma_spaces_end(t, next + 1);
                }
            }
            let next = text::spaces_end(t, end);
            if next < t.len() && t[next] == 'x' {
                match some_dims_at(t, text::spaces_end(t, next + 1)) {
                    Err(error) => Err(error),
                    Ok((rest, stop)) => Ok((seq![dim] + rest, stop)),
                }
            } else {
                Ok((seq![dim], next))
            }
        },
    }
}

/// Dimensions at `pos` with an `x` between them, and where they end.
pub open spec fn dims_at(t: Seq<char>, pos: int) -> Result<(Seq<Dimension>, int), ParseErr> {
    if pos < t.len() && (t[pos] == '?' || tokens::is_sign(t[pos]) || text::is_digit(t[pos])) {
        some_dims_at(t, pos)
    } else {
        Ok((Seq::empty(), pos))
    }
}

/// Where the name of a type ends, if one begins at `pos`: two words with a dot between them.
pub open spec fn type_name_end(t: Seq<char>, pos: int) -> Option<int> {
    let dot = text::run_end(t, pos, CharClass::Word);
    let end = text::run_end(t, dot + 1, CharClass::Word);
    if dot == pos || dot >= t.len() || t[dot] != '.' || end == dot + 1 {
        None
    } else {
        Some(end)
    }
}

/// The sign and width of an integer type at `pos`, and where they end.
pub open spec fn integer_at(t: Seq<char>, pos: int) -> Result<(IntegerType, int), ParseErr> {
    let (signedness, digits) = if text::occurs_at(t, pos, "si"@) {
        (Signedness::Signed, pos + 2)
    } else if text::occurs_at(t, pos, "ui"@) {
        (Signedness::Unsigned, pos + 2)
    } else {
        (Signedness::Signless, pos + 1)
    };
    if signedness is Signless && !text::occurs_at(t, pos, "i"@) {
        Err(ParseErr::Unexpected { at: pos as usize })
    } else {
        match tokens::number_at(t, digits, u32::MAX as nat) {
            Ok((width, end)) => Ok((IntegerType { width: width as u32, signedness }, end)),
            Err(error) => Err(error),
        }
    }
}

/// The element type at `pos`, and where it ends.
pub open spec fn element_type_at(t: Seq<char>, pos: int) -> Result<(ElementType, int), ParseErr> {
    let start = text::spaces_end(t, pos);
    match type_name_end(t, start) {
        None => Err(ParseErr::Unexpected { at: start as usize }),
        Some(end) => {
            let name = t.subrange(start, end);
            let body = text::spaces_end(t, end);
            if name == "builtin.fp16"@ {
                Ok((ElementType::Half, body))
            } else if name == "builtin.fp32"@ {
                Ok((ElementType::Single, body))
            } else if name == "builtin.fp64"@ {
                Ok((ElementType::Double, body))
            } else if name == "builtin.integer"@ {
                match integer_at(t, body) {
                    Ok((integer, stop)) => Ok((ElementType::Integer(integer), stop)),
                    Err(error) => Err(error),
                }
            } else {
                Err(ParseErr::UnknownType { at: pos as usize })
            }
        },
    }
}

/// The shape and element type at `pos`, in angle brackets, and where they end.
pub open spec fn ranked_at(t: Seq<char>, pos: int, kind: ShapedKind) -> Result<
    (ShapedTextView, int),
    ParseErr,
> {
    match tokens::spaced_at(t, pos, "<"@) {
        Err(error) => Err(error),
        Ok(first) => match dims_at(t, first) {
            Err(error) => Err(error),
            Ok((shape, colon)) => match tokens::spaced_at(t, colon, ":"@) {
                Err(error) => Err(error),
                Ok(inner) => match element_type_at(t, inner) {
                    Err(error) => Err(error),
                    Ok((element, close)) => match tokens::spaced_at(t, close, ">"@) {
                        Err(error) => Err(error),
                        Ok(end) => Ok((ShapedTextView { kind, shape, element }, end)),
                    },
                },
            },
        },
    }
}

/// The type with a shape at `pos`, and where it ends.
pub open spec fn shaped_at(t: Seq<char>, pos: int) -> Result<(ShapedTextView, int), ParseErr> {
    let start = text::spaces_end(t, pos);
    match type_name_end(t, start) {
        None => Err(ParseErr::Unexpected { at: start as usize }),
        Some(end) => {
            let name = t.subrange(start, end);
            if name == "tensor.ranked"@ {
                ranked_at(t, end, ShapedKind::Tensor)
            } else if name == "memref.ranked"@ {
                ranked_at(t, end, ShapedKind::Memref)
            } else {
                match element_type_at(t, pos) {
                    Err(error) => Err(error),
                    Ok(_) => Err(ParseErr::NotShaped { at: pos as usize }),
                }
            }
        },
    }
}

/// What comes in front of the elements of the constant at `pos`, and where it ends: an angle
/// bracket, the type and an equals sign.
pub open spec fn header_at(t: Seq<char>, pos: int) -> Result<(ShapedTextView, int), ParseErr> {
    match tokens::token_at(t, pos, "<"@) {
        Err(error) => Err(error),
        Ok(first) => match shaped_at(t, text::spaces_end(t, first)) {
            Err(error) => Err(error),
            Ok((ty, equals)) => match tokens::spaced_at(t, equals, "="@) {
                Err(error) => Err(error),
                Ok(end) => Ok((ty, end)),
            },
        },
    }
}

pub proof fn lemma_dims_error(t: Seq<char>, pos: int)
    requires
        0 <= pos <= t.len(),
    ensures
        some_dims_at(t, pos) matches Err(error) ==> !(error is UnknownType),
        some_dims_at(t, pos) matches Ok((_, end)) ==> pos <= end <= t.len(),
    decreases t.len() - pos,
{
    tokens::lemma_number_end(t, pos);
    if let Ok((_, end)) = dim_at(t, pos) {
        tokens::lemma_spaces_end(t, end);
        let next = text::spaces_end(t, end);
        if next < t.len() && t[next] == 'x' {
            tokens::lemma_spaces_end(t, next + 1);
            lemma_dims_error(t, text::spaces_end(t, next + 1));
        }
    }
}

/// A type that is not known stands in the text.
proof fn lemma_unknown_type(t: Seq<char>, pos: int)
    requires
        0 <= pos <= t.len() <= usize::MAX,
        header_at(t, pos) matches Err(error) && error is UnknownType,
    ensures
        pos < t.len(),
        header_at(t, pos)->Err_0->UnknownType_at <= t.len(),
{
    reveal_strlit("<");
    reveal_strlit(":");
    let first = tokens::token_at(t, pos, "<"@)->Ok_0;
    tokens::lemma_spaces_end(t, first);
    let at = text::spaces_end(t, first);
    tokens::lemma_spaces_end(t, at);
    let start = text::spaces_end(t, at);
    text::lemma_run_end(t, start, CharClass::Word);
    let dot = text::run_end(t, start, CharClass::Word);
    if dot < t.len() {
        text::lemma_run_end(t, dot + 1, CharClass::Word);
    }
    if let Some(end) = type_name_end(t, start) {
        tokens::lemma_spaces_end(t, end);
        if let Ok(dims) = tokens::spaced_at(t, end, "<"@) {
            tokens::lemma_spaces_end(t, text::spaces_end(t, end) + 1);
            lemma_dims_error(t, dims);
            if let Ok((_, colon)) = dims_at(t, dims) {
                tokens::lemma_spaces_end(t, colon);
                if let Ok(_) = tokens::spaced_at(t, colon, ":"@) {
                    tokens::lemma_spaces_end(t, text::spaces_end(t, colon) + 1);
                }
            }
        }
    }
}

/// An element ends behind where it begins.
pub proof fn lemma_element_end(element: ElementType, t: Seq<char>, pos: int, order: ByteOrder)
    requires
        0 <= pos <= t.len(),
    ensures
        elements::element_at(element, t, pos, order) matches Ok((_, end)) ==> pos < end <= t.len(),
{
    tokens::lemma_number_end(t, pos);
    text::lemma_run_end(t, pos, CharClass::Literal);
}

/// The bytes of one or more elements at `pos` with commas between them, and where they and
/// the white space behind them end.
pub open spec fn some_elements_at(
    element: ElementType,
    t: Seq<char>,
    pos: int,
    order: ByteOrder,
) -> Result<(Seq<u8>, int), ParseErr>
    decreases t.len() - pos,
    when 0 <= pos <= t.len()
{
    match elements::element_at(element, t, pos, order) {
        Err(error) => Err(error),
        Ok((first, end)) => {
            proof {
                lemma_element_end(element, t, pos, order);
                tokens::lemma_spaces_end(t, end);
                let next = text::spaces_end(t, end);
                if next < t.len() {
                    tokens::lemma_spaces_end(t, next + 1);
                }
            }
            let next = text::spaces_end(t, end);
            if next < t.len() && t[next] == ',' {
                match some_elements_at(element, t, text::spaces_end(t, next + 1), order) {
                    Err(error) => Err(error),
                    Ok((rest, stop)) => Ok((first + rest, stop)),
                }
            } else {
                Ok((first, next))
            }
        },
    }
}

/// The bytes of the elements at `pos`, in square brackets, and where they end. Integers may
/// be missing altogether; of floating-point numbers there is at least one.
pub open spec fn element_list_at(
    element: ElementType,
    t: Seq<char>,
    pos: int,
    order: ByteOrder,
) -> Result<(Seq<u8>, int), ParseErr> {
    let first = text::spaces_end(t, pos + 1);
    let missing = element is Integer && !(first < t.len() && (tokens::is_sign(t[first])
        || text::is_digit(t[first])));
    let items = if missing {
        Ok::<(Seq<u8>, int), ParseErr>((Seq::empty(), first))
    } else {
        some_elements_at(element, t, first, order)
    };
    match items {
        Err(error) => Err(error),
        Ok((data, stop)) => match tokens::token_at(t, stop, "]"@) {
            Err(error) => Err(error),
            Ok(end) => Ok((data, end)),
        },
    }
}

/// The bytes that stand as hexadecimal digits at `pos`, and where they end.
pub open spec fn hex_at(t: Seq<char>, pos: int) -> Result<(Seq<u8>, int), ParseErr> {
    match hex::string_at(t, pos) {
        Err(error) => Err(error),
        Ok((s, end)) => match hex::decoded(s) {
            Ok(data) => Ok((data, end)),
            Err(error) => Err(
                ParseErr::Constant {
                    at: pos as usize,
                    error: DenseElementsErr::InvalidHex(error),
                },
            ),
        },
    }
}

/// The bytes of the elements at `pos`, and where they end.
pub open spec fn data_at(element: ElementType, t: Seq<char>, pos: int, order: ByteOrder) -> Result<
    (Seq<u8>, int),
    ParseErr,
> {
    if text::occurs_at(t, pos, "splat"@) {
        elements::element_at(element, t, text::spaces_end(t, pos + 5), order)
    } else if text::occurs_at(t, pos, "["@) {
        element_list_at(element, t, pos, order)
    } else {
        hex_at(t, pos)
    }
}

/// The type at `at` that no constant can have elements of, behind the angle bracket at `pos`.
/// As the type of the constant itself it has no shape; as that of its elements it is followed
/// by an angle bracket and an equals sign.
pub open spec fn other_type_at(foreign: Seq<ForeignType>, t: Seq<char>, pos: int, at: int) -> Result<
    TypeTree,
    ParseErr,
> {
    match type_text::type_at(foreign, t, at) {
        Err(error) => Err(error),
        Ok((tree, close)) => if at == text::spaces_end(t, pos + 1) {
            Err(ParseErr::NotShaped { at: at as usize })
        } else {
            match tokens::spaced_at(t, close, ">"@) {
                Err(error) => Err(error),
                Ok(equals) => match tokens::spaced_at(t, equals, "="@) {
                    Err(error) => Err(error),
                    Ok(_) => Ok(tree),
                },
            }
        },
    }
}

/// The constant at `pos`, and where it ends. Types of other dialects stand where `foreign`
/// says.
pub open spec fn dense_at(
    ctx: Context,
    foreign: Seq<ForeignType>,
    t: Seq<char>,
    pos: int,
    order: ByteOrder,
) -> Result<(DenseElementsView, int), ParseErr> {
    match header_at(t, pos) {
        Err(ParseErr::UnknownType { at }) => match other_type_at(foreign, t, pos, at as int) {
            Err(error) => Err(error),
            Ok(tree) => Err(
                ParseErr::Constant {
                    at: pos as usize,
                    error: DenseElementsErr::UnsupportedElementType(tree.handle(ctx)),
                },
            ),
        },
        Err(error) => Err(error),
        Ok((text_ty, first)) => {
            let ty = text_ty.handle(ctx);
            let unsupported = DenseElementsErr::UnsupportedElementType(text_ty.element_handle(ctx));
            if text_ty.element.size() == 0 {
                Err(ParseErr::Constant { at: pos as usize, error: unsupported })
            } else {
                match data_at(text_ty.element, t, first, order) {
                    Err(error) => Err(error),
                    Ok((data, close)) => match tokens::spaced_at(t, close, ">"@) {
                        Err(error) => Err(error),
                        Ok(end) => if !attributes::measurable(
                            text_ty.shape,
                            text_ty.element.size(),
                        ) {
                            Err(ParseErr::TooLarge { at: pos as usize })
                        } else {
                            match attributes::dense_verdict(ctx, ty, data.len()) {
                                Ok(_) => Ok((DenseElementsView { ty, data }, end)),
                                Err(error) => Err(ParseErr::Constant { at: pos as usize, error }),
                            }
                        },
                    },
                }
            }
        },
    }
}

fn parse_dim(t: &[char], pos: usize) -> (r: Result<(Dimension, usize), ParseErr>)
    requires
        pos <= t@.len(),
    ensures
        match r {
            Ok((dim, end)) => dim_at(t@, pos as int) == Ok::<(Dimension, int), ParseErr>(
                (dim, end as int),
            ) && pos < end <= t@.len(),
            Err(error) => dim_at(t@, pos as int) == Err::<(Dimension, int), ParseErr>(error),
        },
{
    if pos < t.len() && t[pos] == '?' {
        return Ok((Dimension::Dynamic, pos + 1));
    }
    match tokens::parse_number(t, pos, usize::MAX) {
        Ok((n, end)) => Ok((Dimension::Static(n), end)),
        Err(error) => Err(error),
    }
}

/// Dimensions in front of what a list of them gives.
pub open spec fn with_dims(
    front: Seq<Dimension>,
    tail: Result<(Seq<Dimension>, int), ParseErr>,
) -> Result<(Seq<Dimension>, int), ParseErr> {
    match tail {
        Err(error) => Err(error),
        Ok((rest, stop)) => Ok((front + rest, stop)),
    }
}

pub fn parse_dims(t: &[char], pos: usize) -> (r: Result<(Vec<Dimension>, usize), ParseErr>)
    requires
        pos <= t@.len(),
    ensures
        match r {
            Ok((shape, end)) => dims_at(t@, pos as int) == Ok::<(Seq<Dimension>, int), ParseErr>(
                (shape@, end as int),
            ) && pos <= end <= t@.len(),
            Err(error) => dims_at(t@, pos as int) == Err::<(Seq<Dimension>, int), ParseErr>(error),
        },
{
    let len: usize = t.len();
    let mut shape: Vec<Dimension> = Vec::new();
    if !(pos < len && (t[pos] == '?' || t[pos] == '+' || t[pos] == '-' || text::belongs(
        CharClass::Digit,
        t[pos],
    ))) {
        assert(shape@ =~= Seq::<Dimension>::empty());
        return Ok((shape, pos));
    }
    let mut i: usize = pos;
    proof {
        if let Ok((rest, _)) = some_dims_at(t@, pos as int) {
            assert(Seq::<Dimension>::empty() + rest =~= rest);
        }
    }
    loop
        invariant
            pos <= i <= len == t@.len(),
            dims_at(t@, pos as int) == with_dims(shape@, some_dims_at(t@, i as int)),
        decreases len - i,
    {
        let ghost before = shape@;
        let (dim, end) = match parse_dim(t, i) {
            Ok(parsed) => parsed,
            Err(error) => {
                return Err(error);
            },
        };
        shape.push(dim);
        let next: usize = tokens::skip_spaces(t, end);
        if next < len && t[next] == 'x' {
            i = tokens::skip_spaces(t, next + 1);
            proof {
                if let Ok((rest, _)) = some_dims_at(t@, i as int) {
                    assert(before + (seq![dim] + rest) =~= shape@ + rest);
                }
            }
        } else {
            assert(before + seq![dim] =~= shape@);
            return Ok((shape, next));
        }
    }
}

pub fn find_type_name_end(t: &[char], pos: usize) -> (r: Option<usize>)
    requires
        pos <= t@.len(),
    ensures
        match r {
            Some(end) => type_name_end(t@, pos as int) == Some(end as int) && pos < end
                <= t@.len(),
            None => type_name_end(t@, pos as int) is None,
        },
{
    let len: usize = t.len();
    let dot: usize = text::find_run_end(t, pos, CharClass::Word);
    if dot == pos || dot >= len || t[dot] != '.' {
        return None;
    }
    let end: usize = text::find_run_end(t, dot + 1, CharClass::Word);
    if end == dot + 1 {
        None
    } else {
        Some(end)
    }
}

fn parse_integer_type(t: &[char], pos: usize) -> (r: Result<(IntegerType, usize), ParseErr>)
    requires
        pos <= t@.len(),
    ensures
        match r {
            Ok((integer, end)) => integer_at(t@, pos as int) == Ok::<
                (IntegerType, int),
                ParseErr,
            >((integer, end as int)) && pos < end <= t@.len(),
            Err(error) => integer_at(t@, pos as int) == Err::<(IntegerType, int), ParseErr>(error),
        },
{
    let ghost len = t.len();
    proof {
        reveal_strlit("si");
        reveal_strlit("ui");
        reveal_strlit("i");
    }
    let (signedness, digits): (Signedness, usize) = if text::stands_at_str(t, pos, "si") {
        (Signedness::Signed, pos + 2)
    } else if text::stands_at_str(t, pos, "ui") {
        (Signedness::Unsigned, pos + 2)
    } else if text::stands_at_str(t, pos, "i") {
        (Signedness::Signless, pos + 1)
    } else {
        return Err(ParseErr::Unexpected { at: pos });
    };
    match tokens::parse_number(t, digits, u32::MAX as usize) {
        Ok((width, end)) => Ok((IntegerType { width: width as u32, signedness }, end)),
        Err(error) => Err(error),
    }
}

pub fn parse_element_type(t: &[char], pos: usize) -> (r: Result<(ElementType, usize), ParseErr>)
    requires
        pos <= t@.len(),
    ensures
        match r {
            Ok((element, end)) => element_type_at(t@, pos as int) == Ok::<
                (ElementType, int),
                ParseErr,
            >((element, end as int)) && pos < end <= t@.len(),
            Err(error) => element_type_at(t@, pos as int) == Err::<(ElementType, int), ParseErr>(
                error,
            ),
        },
{
    let start: usize = tokens::skip_spaces(t, pos);
    let end: usize = match find_type_name_end(t, start) {
        Some(end) => end,
        None => {
            return Err(ParseErr::Unexpected { at: start });
        },
    };
    let body: usize = tokens::skip_spaces(t, end);
    if tokens::spells(t, start, end, "builtin.fp16") {
        Ok((ElementType::Half, body))
    } else if tokens::spells(t, start, end, "builtin.fp32") {
        Ok((ElementType::Single, body))
    } else if tokens::spells(t, start, end, "builtin.fp64") {
        Ok((ElementType::Double, body))
    } else if tokens::spells(t, start, end, "builtin.integer") {
        match parse_integer_type(t, body) {
            Ok((integer, stop)) => Ok((ElementType::Integer(integer), stop)),
            Err(error) => Err(error),
        }
    } else {
        Err(ParseErr::UnknownType { at: pos })
    }
}

fn parse_ranked(t: &[char], pos: usize, kind: ShapedKind) -> (r: Result<
    (ShapedText, usize),
    ParseErr,
>)
    requires
        pos <= t@.len(),
    ensures
        match r {
            Ok((ty, end)) => ranked_at(t@, pos as int, kind) == Ok::<
                (ShapedTextView, int),
                ParseErr,
            >((ty@, end as int)) && pos <= end <= t@.len(),
            Err(error) => ranked_at(t@, pos as int, kind) == Err::<
                (ShapedTextView, int),
                ParseErr,
            >(error),
        },
{
    let first: usize = match tokens::parse_spaced(t, pos, "<") {
        Ok(first) => first,
        Err(error) => {
            return Err(error);
        },
    };
    let (shape, colon) = match parse_dims(t, first) {
        Ok(parsed) => parsed,
        Err(error) => {
            return Err(error);
        },
    };
    let inner: usize = match tokens::parse_spaced(t, colon, ":") {
        Ok(inner) => inner,
        Err(error) => {
            return Err(error);
        },
    };
    let (element, close) = match parse_element_type(t, inner) {
        Ok(parsed) => parsed,
        Err(error) => {
            return Err(error);
        },
    };
    match tokens::parse_spaced(t, close, ">") {
        Ok(end) => Ok((ShapedText { kind, shape, element }, end)),
        Err(error) => Err(error),
    }
}

fn parse_shaped(t: &[char], pos: usize) -> (r: Result<(ShapedText, usize), ParseErr>)
    requires
        pos <= t@.len(),
    ensures
        match r {
            Ok((ty, end)) => shaped_at(t@, pos as int) == Ok::<(ShapedTextView, int), ParseErr>(
                (ty@, end as int),
            ) && pos <= end <= t@.len(),
            Err(error) => shaped_at(t@, pos as int) == Err::<(ShapedTextView, int), ParseErr>(
                error,
            ),
        },
{
    let start: usize = tokens::skip_spaces(t, pos);
    let end: usize = match find_type_name_end(t, start) {
        Some(end) => end,
        None => {
            return Err(ParseErr::Unexpected { at: start });
        },
    };
    if tokens::spells(t, start, end, "tensor.ranked") {
        parse_ranked(t, end, ShapedKind::Tensor)
    } else if tokens::spells(t, start, end, "memref.ranked") {
        parse_ranked(t, end, ShapedKind::Memref)
    } else {
        match parse_element_type(t, pos) {
            Ok(_) => Err(ParseErr::NotShaped { at: pos }),
            Err(error) => Err(error),
        }
    }
}

/// What comes in front of the elements of the constant at `pos`, and where it ends.
pub fn parse_header(t: &[char], pos: usize) -> (r: Result<(ShapedText, usize), ParseErr>)
    requires
        pos <= t@.len(),
    ensures
        match r {
            Ok((ty, end)) => header_at(t@, pos as int) == Ok::<(ShapedTextView, int), ParseErr>(
                (ty@, end as int),
            ) && pos <= end <= t@.len(),
            Err(error) => header_at(t@, pos as int) == Err::<(ShapedTextView, int), ParseErr>(
                error,
            ),
        },
{
    let first: usize = match tokens::parse_token(t, pos, "<") {
        Ok(first) => first,
        Err(error) => {
            return Err(error);
        },
    };
    let (ty, equals) = match parse_shaped(t, tokens::skip_spaces(t, first)) {
        Ok(parsed) => parsed,
        Err(error) => {
            return Err(error);
        },
    };
    match tokens::parse_spaced(t, equals, "=") {
        Ok(end) => Ok((ty, end)),
        Err(error) => Err(error),
    }
}

/// Bytes in front of what a list of elements gives.
pub open spec fn with_data(front: Seq<u8>, tail: Result<(Seq<u8>, int), ParseErr>) -> Result<
    (Seq<u8>, int),
    ParseErr,
> {
    match tail {
        Err(error) => Err(error),
        Ok((rest, stop)) => Ok((front + rest, stop)),
    }
}

fn parse_some_elements(element: ElementType, t: &[char], pos: usize, order: ByteOrder) -> (r:
    Result<(Vec<u8>, usize), ParseErr>)
    requires
        pos <= t@.len(),
        element.has_bits(),
    ensures
        match r {
            Ok((data, end)) => some_elements_at(element, t@, pos as int, order) == Ok::<
                (Seq<u8>, int),
                ParseErr,
            >((data@, end as int)) && pos <= end <= t@.len(),
            Err(error) => some_elements_at(element, t@, pos as int, order) == Err::<
                (Seq<u8>, int),
                ParseErr,
            >(error),
        },
{
    let len: usize = t.len();
    let mut data: Vec<u8> = Vec::new();
    let mut i: usize = pos;
    proof {
        if let Ok((rest, _)) = some_elements_at(element, t@, pos as int, order) {
            assert(Seq::<u8>::empty() + rest =~= rest);
        }
    }
    loop
        invariant
            pos <= i <= len == t@.len(),
            element.has_bits(),
            some_elements_at(element, t@, pos as int, order) == with_data(
                data@,
                some_elements_at(element, t@, i as int, order),
            ),
        decreases len - i,
    {
        let ghost before = data@;
        let (mut first, end) = match elements::parse_element(element, t, i, order) {
            Ok(parsed) => parsed,
            Err(error) => {
                return Err(error);
            },
        };
        let ghost one = first@;
        data.append(&mut first);
        let next: usize = tokens::skip_spaces(t, end);
        if next < len && t[next] == ',' {
            i = tokens::skip_spaces(t, next + 1);
            proof {
                if let Ok((rest, _)) = some_elements_at(element, t@, i as int, order) {
                    assert(before + (one + rest) =~= data@ + rest);
                }
            }
        } else {
            assert(before + one =~= data@);
            return Ok((data, next));
        }
    }
}

fn parse_element_list(element: ElementType, t: &[char], pos: usize, order: ByteOrder) -> (r:
    Result<(Vec<u8>, usize), ParseErr>)
    requires
        pos < t@.len(),
        element.has_bits(),
    ensures
        match r {
            Ok((data, end)) => element_list_at(element, t@, pos as int, order) == Ok::<
                (Seq<u8>, int),
                ParseErr,
            >((data@, end as int)) && pos <= end <= t@.len(),
            Err(error) => element_list_at(element, t@, pos as int, order) == Err::<
                (Seq<u8>, int),
                ParseErr,
            >(error),
        },
{
    let ghost len = t.len();
    assert(pos < len);
    let first: usize = tokens::skip_spaces(t, pos + 1);
    let integers: bool = match element {
        ElementType::Integer(_) => true,
        _ => false,
    };
    let missing: bool = integers && !(first < t.len() && (t[first] == '+' || t[first] == '-'
        || text::belongs(CharClass::Digit, t[first])));
    let (data, stop): (Vec<u8>, usize) = if missing {
        let empty: Vec<u8> = Vec::new();
        assert(empty@ =~= Seq::<u8>::empty());
        (empty, first)
    } else {
        match parse_some_elements(element, t, first, order) {
            Ok(parsed) => parsed,
            Err(error) => {
                return Err(error);
            },
        }
    };
    match tokens::parse_token(t, stop, "]") {
        Ok(end) => Ok((data, end)),
        Err(error) => Err(error),
    }
}

/// The bytes of the elements at `pos`, and where they end.
pub fn parse_data(element: ElementType, t: &[char], pos: usize, order: ByteOrder) -> (r: Result<
    (Vec<u8>, usize),
    ParseErr,
>)
    requires
        pos <= t@.len(),
        element.has_bits(),
    ensures
        match r {
            Ok((data, end)) => data_at(element, t@, pos as int, order) == Ok::<
                (Seq<u8>, int),
                ParseErr,
            >((data@, end as int)) && pos <= end <= t@.len(),
            Err(error) => data_at(element, t@, pos as int, order) == Err::<
                (Seq<u8>, int),
                ParseErr,
            >(error),
        },
{
    proof {
        reveal_strlit("splat");
        reveal_strlit("[");
    }
    let ghost len = t.len();
    if text::stands_at_str(t, pos, "splat") {
        assert(pos + 5 <= len);
        elements::parse_element(element, t, tokens::skip_spaces(t, pos + 5), order)
    } else if text::stands_at_str(t, pos, "[") {
        parse_element_list(element, t, pos, order)
    } else {
        match hex::parse_string(t, pos) {
            Ok((s, end)) => match hex::decode_hex(s.as_slice()) {
                Ok(data) => Ok((data, end)),
                Err(error) => Err(
                    ParseErr::Constant { at: pos, error: DenseElementsErr::InvalidHex(error) },
                ),
            },
            Err(error) => Err(error),
        }
    }
}

/// Whether elements of `size` bytes can be counted, and their bytes too.
fn is_measurable(shape: &Vec<Dimension>, size: usize) -> (r: bool)
    ensures
        r == attributes::measurable(shape@, size as nat),
{
    let mut i: usize = 0;
    while i < shape.len()
        invariant
            i <= shape@.len(),
            forall|k: int| 0 <= k < i ==> #[trigger] shape@[k] is Static,
        decreases shape@.len() - i,
    {
        match shape[i] {
            Dimension::Static(_) => {},
            Dimension::Dynamic => {
                assert(!type_interfaces::fully_static(shape@));
                return true;
            },
        }
        i += 1;
    }
    let ghost sizes = type_interfaces::static_sizes(shape@);
    let mut total: usize = 1;
    let mut j: usize = 0;
    assert(sizes.take(0) =~= Seq::<nat>::empty());
    while j < shape.len()
        invariant
            j <= shape@.len(),
            type_interfaces::fully_static(shape@),
            sizes == type_interfaces::static_sizes(shape@),
            total == row_major::product(sizes.take(j as int)),
            forall|k: int|
                0 <= k <= j ==> row_major::product(#[trigger] sizes.take(k)) <= usize::MAX,
        decreases shape@.len() - j,
    {
        assert(shape@[j as int] is Static);
        let extent: usize = match shape[j] {
            Dimension::Static(extent) => extent,
            Dimension::Dynamic => 0,
        };
        proof {
            let next = sizes.take(j + 1);
            assert(next.drop_last() =~= sizes.take(j as int));
            assert(next.last() == extent);
        }
        match total.checked_mul(extent) {
            Some(more) => {
                total = more;
            },
            None => {
                assert(row_major::product(sizes.take(j + 1)) > usize::MAX);
                return false;
            },
        }
        j += 1;
    }
    assert(sizes.take(shape@.len() as int) =~= sizes);
    total.checked_mul(size).is_some()
}

/// Whether there can be constants of type `ty`, so far as their bytes can be counted.
pub fn is_holdable(ctx: &Context, ty: ShapedTypeHandle) -> (r: bool)
    ensures
        r == attributes::holdable(*ctx, ty),
{
    if !ctx.contains(ty) {
        return false;
    }
    let (element_type, shape): (TypeHandle, &Vec<Dimension>) = match ctx.ranked_tensor(ty) {
        Some(tensor) => (tensor.element_type, &tensor.shape),
        None => match ctx.ranked_memref(ty) {
            Some(memref) => (memref.element_type, &memref.shape),
            None => {
                return false;
            },
        },
    };
    if !ctx.contains(element_type) {
        return false;
    }
    match elements::find_element_type(ctx, element_type) {
        Some(element) => is_measurable(shape, element.element_size()),
        None => true,
    }
}

/// Adds the type of a constant and that of its elements to the context.
fn intern_shaped(ctx: &mut Context, ty: ShapedText) -> (r: ShapedTypeHandle)
    requires
        old(ctx).wf(),
    ensures
        final(ctx).wf(),
        final(ctx).extends(*old(ctx)),
        ty@.held(*final(ctx)),
        r == ty@.handle(*final(ctx)),
        attributes::has_shaped(*final(ctx), r),
        shaped_text_of(*final(ctx), r) == ty@,
        attributes::shaped(*final(ctx), r)->0.element_type == ty@.element_handle(*final(ctx)),
        attributes::dense_element(*final(ctx), r) is Some,
{
    let element_type: TypeHandle = type_text::intern_element(ctx, ty.element);
    let ghost between = *ctx;
    let ghost view = ty@;
    let handle: TypeHandle = match ty.kind {
        ShapedKind::Tensor => RankedTensorType::get(ctx, element_type, ty.shape),
        ShapedKind::Memref => RankedMemrefType::get(ctx, element_type, ty.shape),
    };
    proof {
        assert(ctx@[element_type.id as int] == between@[element_type.id as int]);
        ir::lemma_handle_of(*ctx, element_type);
        ir::lemma_handle_of(*ctx, handle);
    }
    handle
}

/// Reads the type at `at` that no constant can have elements of.
fn parse_other_type(
    ctx: &mut Context,
    foreign: &[ForeignType],
    t: &[char],
    pos: usize,
    at: usize,
) -> (r: Result<TypeHandle, ParseErr>)
    requires
        old(ctx).wf(),
        pos < t@.len(),
        at <= t@.len(),
        type_text::all_foreign(*old(ctx), foreign@, t@.len()),
    ensures
        final(ctx).wf(),
        final(ctx).extends(*old(ctx)),
        match r {
            Ok(ty) => other_type_at(foreign@, t@, pos as int, at as int) matches Ok(tree)
                && tree.held(*final(ctx)) && ty == tree.handle(*final(ctx)),
            Err(error) => other_type_at(foreign@, t@, pos as int, at as int) == Err::<
                TypeTree,
                ParseErr,
            >(error),
        },
{
    let (ty, close) = match type_text::parse_type(ctx, foreign, t, at) {
        Ok(parsed) => parsed,
        Err(error) => {
            return Err(error);
        },
    };
    let ghost len = t.len();
    if at == tokens::skip_spaces(t, pos + 1) {
        return Err(ParseErr::NotShaped { at });
    }
    let equals: usize = match tokens::parse_spaced(t, close, ">") {
        Ok(equals) => equals,
        Err(error) => {
            return Err(error);
        },
    };
    match tokens::parse_spaced(t, equals, "=") {
        Ok(_) => Ok(ty),
        Err(error) => Err(error),
    }
}

impl DenseElementsAttr {
    /// The constant at `pos` of a text, and where it ends. The bytes of each element are put
    /// in the given order. Types of other dialects were read beforehand; where one is missing,
    /// the error says where it stands.
    pub fn parse_with_types(
        ctx: &mut Context,
        foreign: &[ForeignType],
        t: &[char],
        pos: usize,
        order: ByteOrder,
    ) -> (r: Result<(DenseElementsAttr, usize), ParseErr>)
        requires
            old(ctx).wf(),
            pos <= t@.len(),
            type_text::all_foreign(*old(ctx), foreign@, t@.len()),
        ensures
            final(ctx).wf(),
            final(ctx).extends(*old(ctx)),
            match header_at(t@, pos as int) {
                Ok((ty, _)) => ty.held(*final(ctx)),
                Err(ParseErr::UnknownType { at }) => other_type_at(
                    foreign@,
                    t@,
                    pos as int,
                    at as int,
                ) matches Ok(tree) ==> tree.held(*final(ctx)),
                Err(_) => *final(ctx) == *old(ctx),
            },
            match r {
                Ok((attr, end)) => dense_at(*final(ctx), foreign@, t@, pos as int, order) == Ok::<
                    (DenseElementsView, int),
                    ParseErr,
                >((attr@, end as int)) && attr@.valid(*final(ctx)),
                Err(error) => dense_at(*final(ctx), foreign@, t@, pos as int, order) == Err::<
                    (DenseElementsView, int),
                    ParseErr,
                >(error),
            },
    {
        let (text_ty, first) = match parse_header(t, pos) {
            Ok(parsed) => parsed,
            Err(ParseErr::UnknownType { at }) => {
                let ghost len = t.len();
                proof {
                    lemma_unknown_type(t@, pos as int);
                }
                return match parse_other_type(ctx, foreign, t, pos, at) {
                    Ok(element_type) => Err(
                        ParseErr::Constant {
                            at: pos,
                            error: DenseElementsErr::UnsupportedElementType(element_type),
                        },
                    ),
                    Err(error) => Err(error),
                };
            },
            Err(error) => {
                return Err(error);
            },
        };
        let element: ElementType = text_ty.element;
        let size: usize = element.element_size();
        let measurable: bool = is_measurable(&text_ty.shape, size);
        let ty: ShapedTypeHandle = intern_shaped(ctx, text_ty);
        if size == 0 {
            let (element_type, _) = attributes::read_shaped(ctx, ty);
            return Err(
                ParseErr::Constant {
                    at: pos,
                    error: DenseElementsErr::UnsupportedElementType(element_type),
                },
            );
        }
        let (data, close) = match parse_data(element, t, first, order) {
            Ok(parsed) => parsed,
            Err(error) => {
                return Err(error);
            },
        };
        let end: usize = match tokens::parse_spaced(t, close, ">") {
            Ok(end) => end,
            Err(error) => {
                return Err(error);
            },
        };
        if !measurable {
            return Err(ParseErr::TooLarge { at: pos });
        }
        match DenseElementsAttr::new(ctx, ty, data) {
            Ok(attr) => Ok((attr, end)),
            Err(error) => Err(ParseErr::Constant { at: pos, error }),
        }
    }

    /// The constant at `pos` of a text without types of other dialects, and where it ends. The
    /// bytes of each element are put in the given order.
    pub fn parse_ordered(ctx: &mut Context, t: &[char], pos: usize, order: ByteOrder) -> (r: Result<
        (DenseElementsAttr, usize),
        ParseErr,
    >)
        requires
            old(ctx).wf(),
            pos <= t@.len(),
        ensures
            final(ctx).wf(),
            final(ctx).extends(*old(ctx)),
            match header_at(t@, pos as int) {
                Ok((ty, _)) => ty.held(*final(ctx)),
                Err(ParseErr::UnknownType { at }) => other_type_at(
                    Seq::empty(),
                    t@,
                    pos as int,
                    at as int,
                ) matches Ok(tree) ==> tree.held(*final(ctx)),
                Err(_) => *final(ctx) == *old(ctx),
            },
            match r {
                Ok((attr, end)) => dense_at(*final(ctx), Seq::empty(), t@, pos as int, order)
                    == Ok::<(DenseElementsView, int), ParseErr>((attr@, end as int))
                    && attr@.valid(*final(ctx)),
                Err(error) => dense_at(*final(ctx), Seq::empty(), t@, pos as int, order) == Err::<
                    (DenseElementsView, int),
                    ParseErr,
                >(error),
            },
    {
        let none: Vec<ForeignType> = Vec::new();
        assert(none@ =~= Seq::<ForeignType>::empty());
        DenseElementsAttr::parse_with_types(ctx, none.as_slice(), t, pos, order)
    }

    /// The constant at the beginning of a text. The bytes of each element are put in the byte
    /// order of the machine.
    pub fn parse(ctx: &mut Context, t: &[char]) -> (r: Result<DenseElementsAttr, ParseErr>)
        requires
            old(ctx).wf(),
        ensures
            final(ctx).wf(),
            final(ctx).extends(*old(ctx)),
            exists|order: ByteOrder|
                match r {
                    Ok(attr) => (#[trigger] dense_at(*final(ctx), Seq::empty(), t@, 0, order)) matches Ok(
                        (view, _),
                    ) && view == attr@ && attr@.valid(*final(ctx)),
                    Err(error) => dense_at(*final(ctx), Seq::empty(), t@, 0, order) == Err::<
                        (DenseElementsView, int),
                        ParseErr,
                    >(error),
                },
    {
        match DenseElementsAttr::parse_ordered(ctx, t, 0, bytes::native_byte_order()) {
            Ok((attr, _)) => Ok(attr),
            Err(error) => Err(error),
        }
    }
}

} // verus!
