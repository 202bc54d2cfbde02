//! Attributes of the memref dialect.

use crate::ir::{Context, IntegerType, ShapeView, TypeHandle, TypeObj};
use crate::memref::elements;
use crate::memref::elements::ElementType;
use crate::memref::type_interfaces;
use crate::memref::type_interfaces::Dimension;
use vstd::prelude::*;

verus! {

/// A parameter of a slice: an offset, a size or a step.
#[derive(Clone, Copy, Debug, PartialEq, Eq, Hash, Structural)]
pub enum SliceParamAttr {
    /// A constant.
    Static(usize),
    /// The operand with this index in the operation that has the attribute.
    OperandIdx(usize),
}

/// The parameters of a slice, one of each kind for every dimension.
#[derive(Debug)]
pub struct SliceParamsAttr {
    pub offsets: Vec<SliceParamAttr>,
    pub sizes: Vec<SliceParamAttr>,
    pub steps: Vec<SliceParamAttr>,
}

/// An address, fixed when the program is built.
#[derive(Clone, Copy, Debug, PartialEq, Eq, Hash, Structural)]
pub struct ConstPointerAttr(pub usize);

/// What is wrong with hexadecimal text.
#[derive(Clone, Copy, Debug, PartialEq, Eq, Structural)]
pub enum HexErr {
    /// It does not begin with `0x`.
    MissingPrefix,
    /// The number of digits is odd.
    OddDigits,
    /// A character is not a digit.
    InvalidDigit,
}

#[derive(Clone, Copy, Debug, PartialEq, Eq, Structural)]
pub enum DenseElementsErr {
    /// Elements of this type cannot be held.
    UnsupportedElementType(TypeHandle),
    /// The type is asked for the size of an element, and does not have one.
    NotAnElementType(TypeHandle),
    /// The type has a dynamic dimension.
    DynamicShape(TypeHandle),
    /// There are neither as many bytes as all elements need, nor as one element needs.
    DataSize { ty: TypeHandle, expected: usize, element: usize, got: usize },
    /// There are not as many bytes as one element needs.
    SplatSize { ty: TypeHandle, expected: usize, got: usize },
    InvalidHex(HexErr),
    /// The literal between the two positions of the text is no element of the type.
    ElementOutOfRange { ty: IntegerType, start: usize, end: usize },
}

/// Why text is not understood. Positions count characters.
#[derive(Clone, Copy, Debug, PartialEq, Eq, Structural)]
pub enum ParseErr {
    /// Something else is expected here.
    Unexpected { at: usize },
    /// A number is negative or too large.
    InvalidNumber { at: usize },
    /// No value has this name.
    UnknownValue { at: usize },
    /// No type has this name.
    UnknownType { at: usize },
    /// The type has no shape.
    NotShaped { at: usize },
    /// The text is not a floating-point number.
    InvalidFloat { at: usize },
    /// An escaped character does not exist.
    InvalidEscape { at: usize },
    /// The elements need more bytes than a machine word can count.
    TooLarge { at: usize },
    /// A floating-point literal has more digits than are read.
    TooLong { at: usize },
    /// The text does not describe a constant.
    Constant { at: usize, error: DenseElementsErr },
}

/// Names a type with a shape.
pub type ShapedTypeHandle = TypeHandle;

/// The number of elements up to which they are written out as literals. More elements are
/// written as one string of hexadecimal digits.
pub const MAX_ELEMENTS_AS_LITERALS: usize = 100;

/// The number of elements up to which a constant is written in place.
pub const MAX_INLINE_ELEMENTS: usize = 4;

/// The element type and shape of a ranked tensor or memref.
pub open spec fn shaped(ctx: Context, ty: TypeHandle) -> Option<ShapeView> {
    match ctx.as_tensor(ty) {
        Some(shape) => Some(shape),
        None => ctx.as_memref(ty),
    }
}

/// `ty` names a type with a shape, whose elements are of a type of the context.
pub open spec fn has_shaped(ctx: Context, ty: ShapedTypeHandle) -> bool {
    &&& ctx.has(ty)
    &&& shaped(ctx, ty) is Some
    &&& ctx.has(shaped(ctx, ty)->0.element_type)
}

/// The type of the elements of a constant of type `ty`, if constants can hold them.
pub open spec fn dense_element(ctx: Context, ty: ShapedTypeHandle) -> Option<ElementType> {
    elements::element_of(ctx.get(shaped(ctx, ty)->0.element_type))
}

/// Elements can be counted, and so can their bytes.
pub open spec fn measurable(shape: Seq<Dimension>, size: nat) -> bool {
    &&& type_interfaces::countable(shape)
    &&& type_interfaces::fully_static(shape) ==> type_interfaces::static_elements(shape) * size
        <= usize::MAX
}

/// The bytes of a constant of type `ty` can be counted.
pub open spec fn holdable(ctx: Context, ty: ShapedTypeHandle) -> bool {
    &&& has_shaped(ctx, ty)
    &&& dense_element(ctx, ty) matches Some(element) ==> measurable(
        shaped(ctx, ty)->0.shape,
        element.size(),
    )
}

/// Whether `got` bytes are a constant of type `ty`, and what is wrong otherwise: the type of
/// the elements, the shape, or the number of bytes.
pub open spec fn dense_verdict(ctx: Context, ty: ShapedTypeHandle, got: nat) -> Result<
    (),
    DenseElementsErr,
> {
    let ShapeView { element_type, shape } = shaped(ctx, ty)->0;
    match dense_element(ctx, ty) {
        None => Err(DenseElementsErr::UnsupportedElementType(element_type)),
        Some(element) => {
            let full = type_interfaces::static_elements(shape) * element.size();
            if element.size() == 0 {
                Err(DenseElementsErr::UnsupportedElementType(element_type))
            } else if !type_interfaces::fully_static(shape) {
                Err(DenseElementsErr::DynamicShape(ty))
            } else if got != full && got != element.size() {
                Err(
                    DenseElementsErr::DataSize {
                        ty,
                        expected: full as usize,
                        element: element.size() as usize,
                        got: got as usize,
                    },
                )
            } else {
                Ok(())
            }
        },
    }
}

/// The bytes, `n` times over.
pub open spec fn repeated(data: Seq<u8>, n: nat) -> Seq<u8> {
    Seq::new(n * data.len(), |i: int| data[i % data.len() as int])
}

/// What a [DenseElementsAttr] is.
#[verifier::ext_equal]
pub struct DenseElementsView {
    pub ty: ShapedTypeHandle,
    pub data: Seq<u8>,
}

impl DenseElementsView {
    /// The elements fit the type.
    pub open spec fn valid(self, ctx: Context) -> bool {
        holdable(ctx, self.ty) && dense_verdict(ctx, self.ty, self.data.len()) is Ok
    }

    /// Only one element is held.
    pub open spec fn splat(self, ctx: Context) -> bool {
        self.data.len() == dense_element(ctx, self.ty)->0.size()
    }

    /// The bytes of all elements.
    pub open spec fn expanded(self, ctx: Context) -> Seq<u8> {
        let shape = shaped(ctx, self.ty)->0.shape;
        if self.splat(ctx) && type_interfaces::fully_static(shape) {
            repeated(self.data, type_interfaces::static_elements(shape))
        } else {
            self.data
        }
    }
}

/// The elements of a constant.
///
/// - They stand in row-major order.
/// - Each takes as many bytes as its bits need.
/// - Where only one is held, it is a *splat*: every element is the same.
#[derive(Clone, Debug, PartialEq, Eq, Hash)]
pub struct DenseElementsAttr {
    ty: ShapedTypeHandle,
    data: Vec<u8>,
}

impl View for DenseElementsAttr {
    type V = DenseElementsView;

    closed spec fn view(&self) -> DenseElementsView {
        DenseElementsView { ty: self.ty, data: self.data@ }
    }
}

/// The element type and the shape of a type that has a shape.
pub(crate) fn read_shaped(ctx: &Context, ty: ShapedTypeHandle) -> (r: (TypeHandle, &Vec<Dimension>))
    requires
        has_shaped(*ctx, ty),
    ensures
        shaped(*ctx, ty)->0 == (ShapeView { element_type: r.0, shape: r.1@ }),
{
    match ctx.deref(ty) {
        TypeObj::RankedTensor(tensor) => (tensor.element_type, &tensor.shape),
        TypeObj::RankedMemref(memref) => (memref.element_type, &memref.shape),
        _ => {
            assert(false);
            (ty, vstd::pervasive::unreached())
        },
    }
}

fn verify_elements(ctx: &Context, ty: ShapedTypeHandle, got: usize) -> (r: Result<
    (),
    DenseElementsErr,
>)
    requires
        holdable(*ctx, ty),
    ensures
        r == dense_verdict(*ctx, ty, got as nat),
{
    let (element_type, shape) = read_shaped(ctx, ty);
    let element_size: usize = match elements::find_element_type(ctx, element_type) {
        Some(element) => element.element_size(),
        None => 0,
    };
    if element_size == 0 {
        return Err(DenseElementsErr::UnsupportedElementType(element_type));
    }
    let num_elements: usize = match type_interfaces::count_elements(shape) {
        Some(n) => n,
        None => {
            return Err(DenseElementsErr::DynamicShape(ty));
        },
    };
    let full: usize = num_elements * element_size;
    if got != full && got != element_size {
        return Err(
            DenseElementsErr::DataSize { ty, expected: full, element: element_size, got },
        );
    }
    Ok(())
}

/// The bytes, `n` times over.
fn repeat_bytes(data: &[u8], n: usize) -> (r: Vec<u8>)
    requires
        n * data@.len() <= usize::MAX,
    ensures
        r@ == repeated(data@, n as nat),
{
    let len: usize = data.len();
    let mut out: Vec<u8> = Vec::new();
    let mut k: usize = 0;
    while k < n
        invariant
            k <= n,
            len == data@.len(),
            out@ == repeated(data@, k as nat),
        decreases n - k,
    {
        let ghost before = out@;
        let mut i: usize = 0;
        while i < len
            invariant
                i <= len == data@.len(),
                out@ == before + data@.take(i as int),
            decreases len - i,
        {
            out.push(data[i]);
            i += 1;
            assert(data@.take(i as int) =~= data@.take(i - 1).push(data@[i - 1]));
        }
        proof {
            assert(data@.take(len as int) =~= data@);
            lemma_repeated_step(data@, k as nat);
        }
        k += 1;
    }
    out
}

/// Once more is one copy more.
proof fn lemma_repeated_step(data: Seq<u8>, n: nat)
    ensures
        repeated(data, n + 1) == repeated(data, n) + data,
{
    let len = data.len();
    assert((n + 1) * len == n * len + len) by (nonlinear_arith);
    assert forall|i: int| 0 <= i < n * len + len implies repeated(data, n + 1)[i] == (repeated(
        data,
        n,
    ) + data)[i] by {
        if i >= n * len {
            let j = i - n * len;
            vstd::arithmetic::div_mod::lemma_mod_multiples_vanish(n as int, j, len as int);
            vstd::arithmetic::div_mod::lemma_small_mod(j as nat, len);
            assert(i == len * n + j) by (nonlinear_arith)
                requires
                    j == i - n * len,
            ;
        }
    }
    assert(repeated(data, n + 1) =~= repeated(data, n) + data);
}

impl DenseElementsAttr {
    /// A constant of type `ty` from its bytes.
    pub fn new(ctx: &Context, ty: ShapedTypeHandle, data: Vec<u8>) -> (r: Result<
        Self,
        DenseElementsErr,
    >)
        requires
            holdable(*ctx, ty),
        ensures
            match r {
                Ok(attr) => dense_verdict(*ctx, ty, data@.len()) is Ok && attr@ == (
                DenseElementsView { ty, data: data@ }),
                Err(error) => dense_verdict(*ctx, ty, data@.len()) == Err::<(), DenseElementsErr>(
                    error,
                ),
            },
    {
        match verify_elements(ctx, ty, data.len()) {
            Ok(_) => Ok(DenseElementsAttr { ty, data }),
            Err(error) => Err(error),
        }
    }

    /// A constant of type `ty` in which every element is the given one.
    pub fn new_splat(ctx: &Context, ty: ShapedTypeHandle, element: Vec<u8>) -> (r: Result<
        Self,
        DenseElementsErr,
    >)
        requires
            holdable(*ctx, ty),
        ensures
            match r {
                Ok(attr) => splat_verdict(*ctx, ty, element@.len()) is Ok && attr@ == (
                DenseElementsView { ty, data: element@ }),
                Err(error) => splat_verdict(*ctx, ty, element@.len()) == Err::<
                    (),
                    DenseElementsErr,
                >(error),
            },
    {
        let (element_type, _) = read_shaped(ctx, ty);
        let expected: usize = match elements::find_element_type(ctx, element_type) {
            Some(element_ty) => element_ty.element_size(),
            None => {
                return Err(DenseElementsErr::UnsupportedElementType(element_type));
            },
        };
        if element.len() != expected {
            return Err(DenseElementsErr::SplatSize { ty, expected, got: element.len() });
        }
        Self::new(ctx, ty, element)
    }

    /// A constant of type `ty` in which every element is zero.
    pub fn new_zeroed(ctx: &Context, ty: ShapedTypeHandle) -> (r: Result<Self, DenseElementsErr>)
        requires
            holdable(*ctx, ty),
        ensures
            match r {
                Ok(attr) => zeroed_verdict(*ctx, ty) is Ok && attr@ == (DenseElementsView {
                    ty,
                    data: zeros(dense_element(*ctx, ty)->0.size()),
                }),
                Err(error) => zeroed_verdict(*ctx, ty) == Err::<(), DenseElementsErr>(error),
            },
    {
        let (element_type, _) = read_shaped(ctx, ty);
        let size: usize = match elements::find_element_type(ctx, element_type) {
            Some(element_ty) => element_ty.element_size(),
            None => {
                return Err(DenseElementsErr::NotAnElementType(element_type));
            },
        };
        let mut element: Vec<u8> = Vec::new();
        while element.len() < size
            invariant
                element@ == zeros(element@.len()),
                element@.len() <= size,
            decreases size - element@.len(),
        {
            element.push(0);
            assert(element@ =~= zeros(element@.len()));
        }
        Self::new_splat(ctx, ty, element)
    }

    /// The type of the constant.
    pub fn ty(&self) -> (r: ShapedTypeHandle)
        ensures
            r == self@.ty,
    {
        self.ty
    }

    /// The bytes that are held: of a splat, those of one element.
    pub fn raw_data(&self) -> (r: &[u8])
        ensures
            r@ == self@.data,
    {
        self.data.as_slice()
    }

    /// The type of the elements.
    pub fn element_type(&self, ctx: &Context) -> (r: ElementType)
        requires
            has_shaped(*ctx, self@.ty),
            dense_element(*ctx, self@.ty) is Some,
        ensures
            Some(r) == dense_element(*ctx, self@.ty),
    {
        let (element_type, _) = read_shaped(ctx, self.ty);
        match elements::find_element_type(ctx, element_type) {
            Some(element) => element,
            None => ElementType::Half,
        }
    }

    /// The number of bytes of an element.
    pub fn element_size(&self, ctx: &Context) -> (r: usize)
        requires
            has_shaped(*ctx, self@.ty),
            dense_element(*ctx, self@.ty) is Some,
        ensures
            r == dense_element(*ctx, self@.ty)->0.size(),
    {
        self.element_type(ctx).element_size()
    }

    /// The number of elements, if the shape is static.
    pub fn num_elements(&self, ctx: &Context) -> (r: Option<usize>)
        requires
            has_shaped(*ctx, self@.ty),
            type_interfaces::countable(shaped(*ctx, self@.ty)->0.shape),
        ensures
            r is Some <==> type_interfaces::fully_static(shaped(*ctx, self@.ty)->0.shape),
            r matches Some(n) ==> n == type_interfaces::static_elements(
                shaped(*ctx, self@.ty)->0.shape,
            ),
    {
        let (_, shape) = read_shaped(ctx, self.ty);
        type_interfaces::count_elements(shape)
    }

    /// Whether only one element is held.
    pub fn is_splat(&self, ctx: &Context) -> (r: bool)
        requires
            has_shaped(*ctx, self@.ty),
            dense_element(*ctx, self@.ty) is Some,
        ensures
            r == self@.splat(*ctx),
    {
        self.data.len() == self.element_size(ctx)
    }

    /// Whether all bytes are zero.
    pub fn is_all_zero(&self) -> (r: bool)
        ensures
            r == (self@.data == zeros(self@.data.len())),
    {
        let mut i: usize = 0;
        while i < self.data.len()
            invariant
                i <= self.data@.len(),
                forall|k: int| 0 <= k < i ==> self.data@[k] == 0,
            decreases self.data@.len() - i,
        {
            if self.data[i] != 0 {
                assert(self.data@[i as int] != zeros(self.data@.len())[i as int]);
                return false;
            }
            i += 1;
        }
        assert(self.data@ =~= zeros(self.data@.len()));
        true
    }

    /// The bytes of all elements.
    pub fn expanded_data(&self, ctx: &Context) -> (r: Vec<u8>)
        requires
            holdable(*ctx, self@.ty),
            dense_element(*ctx, self@.ty) is Some,
        ensures
            r@ == self@.expanded(*ctx),
    {
        match (self.is_splat(ctx), self.num_elements(ctx)) {
            (true, Some(n)) => repeat_bytes(self.data.as_slice(), n),
            _ => {
                let ghost len = self.data.len();
                proof {
                    lemma_repeated_once(self.data@);
                }
                repeat_bytes(self.data.as_slice(), 1)
            },
        }
    }

    /// The bytes of all elements.
    pub fn into_expanded_data(self, ctx: &Context) -> (r: Vec<u8>)
        requires
            holdable(*ctx, self@.ty),
            dense_element(*ctx, self@.ty) is Some,
        ensures
            r@ == self@.expanded(*ctx),
    {
        match (self.is_splat(ctx), self.num_elements(ctx)) {
            (true, Some(n)) => repeat_bytes(self.data.as_slice(), n),
            _ => self.data,
        }
    }

    /// Sets the type and keeps the bytes. The type stays as it was if the bytes do not fit it.
    pub fn set_type(&mut self, ctx: &Context, ty: ShapedTypeHandle) -> (r: Result<
        (),
        DenseElementsErr,
    >)
        requires
            holdable(*ctx, ty),
        ensures
            r == dense_verdict(*ctx, ty, old(self)@.data.len()),
            final(self)@ == (DenseElementsView {
                ty: if r is Ok {
                    ty
                } else {
                    old(self)@.ty
                },
                data: old(self)@.data,
            }),
    {
        match verify_elements(ctx, ty, self.data.len()) {
            Ok(_) => {
                self.ty = ty;
                Ok(())
            },
            Err(error) => Err(error),
        }
    }

    /// Whether the bytes fit the type.
    pub fn verify(&self, ctx: &Context) -> (r: Result<(), DenseElementsErr>)
        requires
            holdable(*ctx, self@.ty),
        ensures
            r == dense_verdict(*ctx, self@.ty, self@.data.len()),
    {
        verify_elements(ctx, self.ty, self.data.len())
    }

    /// Whether the constant is written apart from where it is used: a splat never is, and
    /// other constants are if they have more than a few elements or a dynamic shape.
    pub fn outline(&self, ctx: &Context) -> (r: bool)
        requires
            has_shaped(*ctx, self@.ty),
            dense_element(*ctx, self@.ty) is Some,
            type_interfaces::countable(shaped(*ctx, self@.ty)->0.shape),
        ensures
            r == (!self@.splat(*ctx) && {
                let shape = shaped(*ctx, self@.ty)->0.shape;
                !type_interfaces::fully_static(shape) || type_interfaces::static_elements(shape)
                    > MAX_INLINE_ELEMENTS
            }),
            r == (!self@.splat(*ctx) && (type_interfaces::fully_static(
                shaped(*ctx, self@.ty)->0.shape,
            ) ==> type_interfaces::static_elements(shaped(*ctx, self@.ty)->0.shape) > 4)),
    {
        if self.is_splat(ctx) {
            return false;
        }
        match self.num_elements(ctx) {
            Some(n) => n > MAX_INLINE_ELEMENTS,
            None => true,
        }
    }
}

/// Zero bytes.
pub open spec fn zeros(n: nat) -> Seq<u8> {
    Seq::new(n, |i: int| 0u8)
}

/// Whether `got` bytes are an element of a constant of type `ty`.
pub open spec fn splat_verdict(ctx: Context, ty: ShapedTypeHandle, got: nat) -> Result<
    (),
    DenseElementsErr,
> {
    match dense_element(ctx, ty) {
        None => Err(
            DenseElementsErr::UnsupportedElementType(shaped(ctx, ty)->0.element_type),
        ),
        Some(element) => if got != element.size() {
            Err(
                DenseElementsErr::SplatSize {
                    ty,
                    expected: element.size() as usize,
                    got: got as usize,
                },
            )
        } else {
            dense_verdict(ctx, ty, got)
        },
    }
}

/// Whether zeros are a constant of type `ty`.
pub open spec fn zeroed_verdict(ctx: Context, ty: ShapedTypeHandle) -> Result<
    (),
    DenseElementsErr,
> {
    match dense_element(ctx, ty) {
        None => Err(
            DenseElementsErr::NotAnElementType(shaped(ctx, ty)->0.element_type),
        ),
        Some(element) => dense_verdict(ctx, ty, element.size()),
    }
}

proof fn lemma_repeated_once(data: Seq<u8>)
    ensures
        repeated(data, 1) == data,
{
    lemma_repeated_step(data, 0);
    assert(repeated(data, 0) =~= Seq::<u8>::empty());
}

/// Expanded, a constant has the bytes of every element of its type. Each element of a splat
/// is the one that is held.
pub proof fn law_expanded(ctx: Context, attr: DenseElementsView, i: int)
    requires
        attr.valid(ctx),
        0 <= i < type_interfaces::static_elements(shaped(ctx, attr.ty)->0.shape),
    ensures
        ({
            let n = type_interfaces::static_elements(shaped(ctx, attr.ty)->0.shape);
            let size = dense_element(ctx, attr.ty)->0.size();
            let element = attr.expanded(ctx).subrange(i * size, (i + 1) * size);
            &&& attr.expanded(ctx).len() == n * size
            &&& attr.splat(ctx) ==> element == attr.data
            &&& !attr.splat(ctx) ==> element == attr.data.subrange(i * size, (i + 1) * size)
        }),
{
    let n = type_interfaces::static_elements(shaped(ctx, attr.ty)->0.shape);
    let size = dense_element(ctx, attr.ty)->0.size();
    if attr.splat(ctx) {
        let whole = attr.expanded(ctx);
        assert((i + 1) * size == i * size + size) by (nonlinear_arith);
        assert((i + 1) * size <= n * size) by (nonlinear_arith)
            requires
                i < n,
                size >= 0,
        ;
        assert(0 <= i * size) by (nonlinear_arith)
            requires
                0 <= i,
                size >= 0,
        ;
        let element = whole.subrange(i * size, (i + 1) * size);
        assert forall|j: int| 0 <= j < size implies element[j] == attr.data[j] by {
            vstd::arithmetic::div_mod::lemma_mod_multiples_vanish(i, j, size as int);
            vstd::arithmetic::div_mod::lemma_small_mod(j as nat, size);
            assert(i * size + j == size * i + j) by (nonlinear_arith);
        }
        assert(element =~= attr.data);
    }
}

/// A zero constant is a splat of zeros only, and stays one when it is expanded.
pub proof fn law_zeroed(ctx: Context, ty: ShapedTypeHandle)
    requires
        holdable(ctx, ty),
        zeroed_verdict(ctx, ty) is Ok,
    ensures
        ({
            let attr = DenseElementsView { ty, data: zeros(dense_element(ctx, ty)->0.size()) };
            &&& attr.valid(ctx)
            &&& attr.splat(ctx)
            &&& attr.expanded(ctx) == zeros(attr.expanded(ctx).len())
        }),
{
    let attr = DenseElementsView { ty, data: zeros(dense_element(ctx, ty)->0.size()) };
    assert forall|i: int| 0 <= i < attr.expanded(ctx).len() implies attr.expanded(ctx)[i] == 0 by {
        let size = attr.data.len() as int;
        assert(0 <= i % size < size);
    }
    assert(attr.expanded(ctx) =~= zeros(attr.expanded(ctx).len()));
}

} // verus!
