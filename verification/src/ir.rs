//! Types, values and operations.

use crate::memref::type_interfaces;
use crate::memref::type_interfaces::{Dimension, ShapedType};
use crate::memref::types::{RankedMemrefType, UnrankedMemrefType};
use crate::search;
use crate::tensor::types::{RankedTensorType, UnrankedTensorType};
use vstd::prelude::*;

verus! {

/// Names a type of a [Context]. Two handles of one context are equal exactly if the types
/// are.
#[derive(Clone, Copy, Debug, PartialEq, Eq, Hash, Structural)]
pub struct TypeHandle {
    pub id: usize,
}

/// Whether and how the sign of an integer is encoded.
#[derive(Clone, Copy, Debug, PartialEq, Eq, Hash, Structural)]
pub enum Signedness {
    Signed,
    Unsigned,
    Signless,
}

/// Integer of a fixed width.
#[derive(Clone, Copy, Debug, PartialEq, Eq, Hash, Structural)]
pub struct IntegerType {
    pub width: u32,
    pub signedness: Signedness,
}

/// A type.
#[derive(Debug)]
pub enum TypeObj {
    /// Integer that indexes memory.
    Index,
    /// IEEE half precision.
    FP16,
    /// IEEE single precision.
    FP32,
    /// IEEE double precision.
    FP64,
    Integer(IntegerType),
    RankedTensor(RankedTensorType),
    UnrankedTensor(UnrankedTensorType),
    RankedMemref(RankedMemrefType),
    UnrankedMemref(UnrankedMemrefType),
    /// Opaque address.
    Pointer,
    /// No value.
    Void,
    /// `length` values of one type.
    Array { element_type: TypeHandle, length: u64 },
    /// One value of each type.
    Struct(Vec<TypeHandle>),
    /// Function from arguments to a result.
    Function { result: TypeHandle, arguments: Vec<TypeHandle> },
    /// A type of another dialect, told apart by number.
    Other(u64),
}

/// What a [TypeObj] is.
#[verifier::ext_equal]
pub enum TypeView {
    Index,
    FP16,
    FP32,
    FP64,
    Integer(IntegerType),
    RankedTensor { element_type: TypeHandle, shape: Seq<Dimension> },
    UnrankedTensor(TypeHandle),
    RankedMemref { element_type: TypeHandle, shape: Seq<Dimension> },
    UnrankedMemref(TypeHandle),
    Pointer,
    Void,
    Array { element_type: TypeHandle, length: u64 },
    Struct(Seq<TypeHandle>),
    Function { result: TypeHandle, arguments: Seq<TypeHandle> },
    Other(u64),
}

impl View for TypeObj {
    type V = TypeView;

    open spec fn view(&self) -> TypeView {
        match *self {
            TypeObj::Index => TypeView::Index,
            TypeObj::FP16 => TypeView::FP16,
            TypeObj::FP32 => TypeView::FP32,
            TypeObj::FP64 => TypeView::FP64,
            TypeObj::Integer(ty) => TypeView::Integer(ty),
            TypeObj::RankedTensor(ty) => TypeView::RankedTensor {
                element_type: ty.element_type,
                shape: ty.shape@,
            },
            TypeObj::UnrankedTensor(ty) => TypeView::UnrankedTensor(ty.element_type),
            TypeObj::RankedMemref(ty) => TypeView::RankedMemref {
                element_type: ty.element_type,
                shape: ty.shape@,
            },
            TypeObj::UnrankedMemref(ty) => TypeView::UnrankedMemref(ty.element_type),
            TypeObj::Pointer => TypeView::Pointer,
            TypeObj::Void => TypeView::Void,
            TypeObj::Array { element_type, length } => TypeView::Array { element_type, length },
            TypeObj::Struct(fields) => TypeView::Struct(fields@),
            TypeObj::Function { result, arguments } => TypeView::Function {
                result,
                arguments: arguments@,
            },
            TypeObj::Other(n) => TypeView::Other(n),
        }
    }
}

fn same_handles(a: &Vec<TypeHandle>, b: &Vec<TypeHandle>) -> (r: bool)
    ensures
        r == (a@ == b@),
{
    if a.len() != b.len() {
        return false;
    }
    let mut i: usize = 0;
    while i < a.len()
        invariant
            i <= a@.len() == b@.len(),
            forall|k: int| 0 <= k < i ==> a@[k] == b@[k],
        decreases a@.len() - i,
    {
        if a[i] != b[i] {
            return false;
        }
        i += 1;
    }
    assert(a@ =~= b@);
    true
}

impl TypeObj {
    /// Whether two types are the same.
    pub fn same(&self, other: &TypeObj) -> (r: bool)
        ensures
            r == (self@ == other@),
    {
        match (self, other) {
            (TypeObj::Index, TypeObj::Index) => true,
            (TypeObj::FP16, TypeObj::FP16) => true,
            (TypeObj::FP32, TypeObj::FP32) => true,
            (TypeObj::FP64, TypeObj::FP64) => true,
            (TypeObj::Integer(a), TypeObj::Integer(b)) => *a == *b,
            (TypeObj::RankedTensor(a), TypeObj::RankedTensor(b)) => {
                a.element_type == b.element_type && type_interfaces::same_shape(&a.shape, &b.shape)
            },
            (TypeObj::UnrankedTensor(a), TypeObj::UnrankedTensor(b)) => {
                a.element_type == b.element_type
            },
            (TypeObj::RankedMemref(a), TypeObj::RankedMemref(b)) => {
                a.element_type == b.element_type && type_interfaces::same_shape(&a.shape, &b.shape)
            },
            (TypeObj::UnrankedMemref(a), TypeObj::UnrankedMemref(b)) => {
                a.element_type == b.element_type
            },
            (TypeObj::Pointer, TypeObj::Pointer) => true,
            (TypeObj::Void, TypeObj::Void) => true,
            (
                TypeObj::Array { element_type: ea, length: la },
                TypeObj::Array { element_type: eb, length: lb },
            ) => *ea == *eb && *la == *lb,
            (TypeObj::Struct(a), TypeObj::Struct(b)) => same_handles(a, b),
            (
                TypeObj::Function { result: ra, arguments: aa },
                TypeObj::Function { result: rb, arguments: ab },
            ) => *ra == *rb && same_handles(aa, ab),
            (TypeObj::Other(a), TypeObj::Other(b)) => *a == *b,
            _ => false,
        }
    }
}

/// The element type and the shape of a ranked type.
pub struct ShapeView {
    pub element_type: TypeHandle,
    pub shape: Seq<Dimension>,
}

/// The types of a program, each held once.
#[derive(Debug)]
pub struct Context {
    types: Vec<TypeObj>,
}

impl View for Context {
    type V = Seq<TypeView>;

    closed spec fn view(&self) -> Seq<TypeView> {
        Seq::new(self.types@.len(), |i: int| self.types@[i]@)
    }
}

impl Context {
    /// No type is held twice.
    pub open spec fn wf(&self) -> bool {
        forall|i: int, j: int| 0 <= i < j < self@.len() ==> #[trigger] self@[i] != #[trigger] self@[j]
    }

    /// `ty` names a type of this context.
    pub open spec fn has(&self, ty: TypeHandle) -> bool {
        ty.id < self@.len()
    }

    /// The type of `value` is one of this context.
    pub open spec fn has_value(&self, value: Value) -> bool {
        self.has(value.ty)
    }

    /// The types of all `values` are of this context.
    pub open spec fn has_values(&self, values: Seq<Value>) -> bool {
        forall|i: int| 0 <= i < values.len() ==> self.has_value(#[trigger] values[i])
    }

    /// All `types` are of this context.
    pub open spec fn has_types(&self, types: Seq<TypeHandle>) -> bool {
        forall|i: int| 0 <= i < types.len() ==> self.has(#[trigger] types[i])
    }

    /// What was in `earlier` is in this context, under the same handles.
    pub open spec fn extends(&self, earlier: Context) -> bool {
        &&& earlier@.len() <= self@.len()
        &&& forall|i: int| 0 <= i < earlier@.len() ==> #[trigger] self@[i] == earlier@[i]
    }

    /// The type that `ty` names.
    pub open spec fn get(&self, ty: TypeHandle) -> TypeView {
        self@[ty.id as int]
    }

    /// The element type and shape of `ty`, if it is a ranked memref.
    pub open spec fn as_memref(&self, ty: TypeHandle) -> Option<ShapeView> {
        match self.get(ty) {
            TypeView::RankedMemref { element_type, shape } => Some(
                ShapeView { element_type, shape },
            ),
            _ => None,
        }
    }

    /// The element type and shape of `ty`, if it is a ranked tensor.
    pub open spec fn as_tensor(&self, ty: TypeHandle) -> Option<ShapeView> {
        match self.get(ty) {
            TypeView::RankedTensor { element_type, shape } => Some(
                ShapeView { element_type, shape },
            ),
            _ => None,
        }
    }

    /// The context holds the type.
    pub open spec fn holds(&self, view: TypeView) -> bool {
        exists|ty: TypeHandle| #[trigger] self.has(ty) && self.get(ty) == view
    }

    /// The handle of a type that the context holds.
    pub open spec fn handle_of(&self, view: TypeView) -> TypeHandle {
        choose|ty: TypeHandle| #[trigger] self.has(ty) && self.get(ty) == view
    }

    /// A context without types.
    pub fn new() -> (r: Self)
        ensures
            r.wf(),
            r@.len() == 0,
    {
        Context { types: Vec::new() }
    }

    /// The handle of `obj`, which is added if it is not there yet.
    pub fn intern(&mut self, obj: TypeObj) -> (r: TypeHandle)
        requires
            old(self).wf(),
        ensures
            final(self).wf(),
            final(self).extends(*old(self)),
            final(self).has(r),
            final(self).get(r) == obj@,
            old(self)@.contains(obj@) ==> final(self)@ == old(self)@,
            !old(self)@.contains(obj@) ==> final(self)@ == old(self)@.push(obj@),
    {
        let mut i: usize = 0;
        while i < self.types.len()
            invariant
                i <= self.types@.len(),
                self@ == old(self)@,
                self.wf(),
                forall|k: int| 0 <= k < i ==> #[trigger] self@[k] != obj@,
            decreases self.types@.len() - i,
        {
            if self.types[i].same(&obj) {
                assert(self@[i as int] == obj@);
                return TypeHandle { id: i };
            }
            i += 1;
        }
        self.types.push(obj);
        assert(self@ =~= old(self)@.push(obj@));
        TypeHandle { id: i }
    }

    /// Whether `ty` names a type of this context.
    pub fn contains(&self, ty: TypeHandle) -> (r: bool)
        ensures
            r == self.has(ty),
    {
        ty.id < self.types.len()
    }

    /// The type that `ty` names.
    pub fn deref(&self, ty: TypeHandle) -> (r: &TypeObj)
        requires
            self.has(ty),
        ensures
            r@ == self.get(ty),
    {
        &self.types[ty.id]
    }

    /// The type that `ty` names, if it is a ranked memref.
    pub fn ranked_memref(&self, ty: TypeHandle) -> (r: Option<&RankedMemrefType>)
        requires
            self.has(ty),
        ensures
            r is Some <==> self.as_memref(ty) is Some,
            r matches Some(m) ==> self.as_memref(ty) == Some(
                ShapeView { element_type: m.element_type, shape: m.shape@ },
            ),
    {
        match self.deref(ty) {
            TypeObj::RankedMemref(m) => Some(m),
            _ => None,
        }
    }

    /// The type that `ty` names, if it is a ranked tensor.
    pub fn ranked_tensor(&self, ty: TypeHandle) -> (r: Option<&RankedTensorType>)
        requires
            self.has(ty),
        ensures
            r is Some <==> self.as_tensor(ty) is Some,
            r matches Some(t) ==> self.as_tensor(ty) == Some(
                ShapeView { element_type: t.element_type, shape: t.shape@ },
            ),
    {
        match self.deref(ty) {
            TypeObj::RankedTensor(t) => Some(t),
            _ => None,
        }
    }

    /// Whether `ty` is the index type.
    pub fn is_index(&self, ty: TypeHandle) -> (r: bool)
        requires
            self.has(ty),
        ensures
            r == (self.get(ty) is Index),
    {
        match self.deref(ty) {
            TypeObj::Index => true,
            _ => false,
        }
    }
}

/// Handles are equal exactly if the types that they name are.
pub proof fn law_handles_name_types(ctx: Context, a: TypeHandle, b: TypeHandle)
    requires
        ctx.wf(),
        ctx.has(a),
        ctx.has(b),
    ensures
        a == b <==> ctx.get(a) == ctx.get(b),
{
    if a.id < b.id {
        assert(ctx@[a.id as int] != ctx@[b.id as int]);
    } else if b.id < a.id {
        assert(ctx@[b.id as int] != ctx@[a.id as int]);
    }
}

/// A type has one handle.
pub proof fn lemma_handle_of(ctx: Context, ty: TypeHandle)
    requires
        ctx.wf(),
        ctx.has(ty),
    ensures
        ctx.holds(ctx.get(ty)),
        ctx.handle_of(ctx.get(ty)) == ty,
{
    law_handles_name_types(ctx, ctx.handle_of(ctx.get(ty)), ty);
}

/// What one context holds stays under its handle in a context that extends it.
pub proof fn lemma_extends(ctx: Context, earlier: Context, view: TypeView)
    requires
        ctx.wf(),
        ctx.extends(earlier),
        earlier.holds(view),
    ensures
        ctx.holds(view),
        ctx.handle_of(view) == earlier.handle_of(view),
{
    let ty = earlier.handle_of(view);
    assert(ctx@[ty.id as int] == earlier@[ty.id as int]);
    lemma_handle_of(ctx, ty);
}

/// A value of a program: the result of an operation or the argument of a block.
#[derive(Clone, Copy, Debug, PartialEq, Eq, Hash, Structural)]
pub struct Value {
    pub id: usize,
    pub ty: TypeHandle,
}

impl Value {
    /// The type of the value.
    pub fn get_type(&self) -> (r: TypeHandle)
        ensures
            r == self.ty,
    {
        self.ty
    }
}

/// What every operation has: the values it uses and the types of its results.
#[derive(Debug)]
pub struct Operation {
    pub operands: Vec<Value>,
    pub result_types: Vec<TypeHandle>,
}

impl Operation {
    /// The types of all operands and results are of `ctx`.
    pub open spec fn typed_in(&self, ctx: Context) -> bool {
        &&& ctx.has_values(self.operands@)
        &&& forall|i: int|
            0 <= i < self.result_types@.len() ==> ctx.has(#[trigger] self.result_types@[i])
    }
}

/// A function with a body. The types of the arguments of its first block follow those of its
/// signature.
#[derive(Debug, PartialEq, Eq)]
pub struct FuncOp {
    pub ty: TypeHandle,
    pub arguments: Vec<TypeHandle>,
}

impl FuncOp {
    /// The type is that of a function, and all types are of `ctx`.
    pub open spec fn wf(&self, ctx: Context) -> bool {
        &&& ctx.has(self.ty)
        &&& ctx.get(self.ty) matches TypeView::Function { result, arguments } && ctx.has(result)
            && ctx.has_types(arguments)
        &&& ctx.has_types(self.arguments@)
    }
}

/// A loop over a range, which carries values from one round to the next. The bounds of the
/// range come first among the operands, then the initial values. There is one result for
/// each carried value.
#[derive(Debug)]
pub struct ForOp {
    pub op: Operation,
    pub num_bounds: usize,
}

impl ForOp {
    pub open spec fn wf(&self, ctx: Context) -> bool {
        &&& self.op.typed_in(ctx)
        &&& self.num_bounds <= self.op.operands@.len()
        &&& self.op.result_types@.len() == self.op.operands@.len() - self.num_bounds
    }
}

/// Loads a value from an address.
#[derive(Debug)]
pub struct PointerLoadOp {
    pub op: Operation,
}

impl PointerLoadOp {
    pub open spec fn wf(&self, ctx: Context) -> bool {
        &&& self.op.typed_in(ctx)
        &&& self.op.operands@.len() == 1
        &&& self.op.result_types@.len() == 1
    }
}

/// The value at each index is not of index type.
pub open spec fn non_index_at(ctx: Context, values: Seq<Value>) -> spec_fn(int) -> bool {
    |i: int| !(ctx.get(values[i].ty) is Index)
}

/// All values are of index type.
pub open spec fn all_index(ctx: Context, values: Seq<Value>) -> bool {
    forall|i: int| 0 <= i < values.len() ==> ctx.get((#[trigger] values[i]).ty) is Index
}

/// The search for a value that is not of index type fails only where all values are.
pub proof fn lemma_all_index(ctx: Context, values: Seq<Value>)
    ensures
        search::first_where(values.len(), non_index_at(ctx, values)) is None <==> all_index(
            ctx,
            values,
        ),
{
    let wrong = non_index_at(ctx, values);
    search::lemma_first_where(values.len(), wrong);
    if search::first_where(values.len(), wrong) is None {
        assert forall|i: int| 0 <= i < values.len() implies ctx.get(
            (#[trigger] values[i]).ty,
        ) is Index by {
            assert(!wrong(i));
        }
    } else {
        let i = search::first_where(values.len(), wrong)->Some_0;
        assert(!(ctx.get(values[i].ty) is Index));
    }
}

/// The position of the first value that is not of index type.
pub fn find_non_index(ctx: &Context, values: &[Value]) -> (r: Option<usize>)
    requires
        ctx.has_values(values@),
    ensures
        r is Some <==> !all_index(*ctx, values@),
        match r {
            Some(i) => search::first_where(values@.len(), non_index_at(*ctx, values@))
                == Some(i as int),
            None => search::first_where(values@.len(), non_index_at(*ctx, values@)) is None,
        },
{
    let mut i: usize = 0;
    while i < values.len()
        invariant
            i <= values@.len(),
            ctx.has_values(values@),
            forall|k: int| 0 <= k < i ==> ctx.get((#[trigger] values@[k]).ty) is Index,
            search::first_where(i as nat, non_index_at(*ctx, values@)) is None,
        decreases values@.len() - i,
    {
        assert(ctx.has_value(values@[i as int]));
        if !ctx.is_index(values[i].ty) {
            proof {
                search::lemma_first_where_stable(
                    (i + 1) as nat,
                    values@.len(),
                    non_index_at(*ctx, values@),
                );
            }
            return Some(i);
        }
        i += 1;
    }
    None
}

/// The values from number `start` on.
pub fn values_from(values: &Vec<Value>, start: usize) -> (r: Vec<Value>)
    requires
        start <= values@.len(),
    ensures
        r@ == values@.skip(start as int),
{
    let mut rest: Vec<Value> = Vec::new();
    let mut i: usize = start;
    while i < values.len()
        invariant
            start <= i <= values@.len(),
            rest@ == values@.subrange(start as int, i as int),
        decreases values@.len() - i,
    {
        rest.push(values[i]);
        i += 1;
        assert(rest@ =~= values@.subrange(start as int, i as int));
    }
    assert(rest@ =~= values@.skip(start as int));
    rest
}

/// Arguments of a block: consecutive values of one type.
pub open spec fn block_arguments(first: usize, ty: TypeHandle, n: nat) -> Seq<Value> {
    Seq::new(n, |i: int| Value { id: (first + i) as usize, ty })
}

/// Makes the arguments of a block, numbered from `first` on.
pub fn make_block_arguments(first: usize, ty: TypeHandle, n: usize) -> (r: Vec<Value>)
    requires
        first + n <= usize::MAX,
    ensures
        r@ == block_arguments(first, ty, n as nat),
{
    let mut arguments: Vec<Value> = Vec::new();
    let mut i: usize = 0;
    while i < n
        invariant
            i <= n,
            first + n <= usize::MAX,
            arguments@ == block_arguments(first, ty, i as nat),
        decreases n - i,
    {
        arguments.push(Value { id: first + i, ty });
        i += 1;
        assert(arguments@ =~= block_arguments(first, ty, i as nat));
    }
    arguments
}

/// A copy of a list of types.
pub fn copy_types(types: &Vec<TypeHandle>) -> (r: Vec<TypeHandle>)
    ensures
        r@ == types@,
{
    let mut copy: Vec<TypeHandle> = Vec::new();
    let mut i: usize = 0;
    while i < types.len()
        invariant
            i <= types@.len(),
            copy@ == types@.take(i as int),
        decreases types@.len() - i,
    {
        copy.push(types[i]);
        i += 1;
        assert(types@.take(i as int) =~= types@.take(i - 1).push(types@[i - 1]));
    }
    assert(types@.take(types@.len() as int) =~= types@);
    copy
}

/// A copy of a list of values.
pub fn copy_values(values: &[Value]) -> (r: Vec<Value>)
    ensures
        r@ == values@,
{
    let mut copy: Vec<Value> = Vec::new();
    let mut i: usize = 0;
    while i < values.len()
        invariant
            i <= values@.len(),
            copy@ == values@.take(i as int),
        decreases values@.len() - i,
    {
        copy.push(values[i]);
        i += 1;
        assert(values@.take(i as int) =~= values@.take(i - 1).push(values@[i - 1]));
    }
    assert(values@.take(values@.len() as int) =~= values@);
    copy
}

} // verus!
