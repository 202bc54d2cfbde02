//! Plans: what an operation is replaced by.
//!
//! A plan is a list of steps. A step may use values of the program and the results of
//! earlier steps. A step that is a loop has a body, which is a list of simpler steps.

use crate::ir::{TypeHandle, Value};
use vstd::prelude::*;

verus! {

/// Where a step takes a value from.
#[derive(Clone, Copy, Debug, PartialEq, Eq, Structural)]
pub enum Ref {
    /// A value of the program.
    Value(Value),
    /// The result of a step of the same list.
    Step(usize),
    /// The result of a step outside of the loop.
    Outer(usize),
    /// The index of the loop in a dimension.
    Induction(usize),
    /// The size in a dimension of the descriptor or layout that a step gives.
    Size { step: usize, dim: usize },
    /// The stride in a dimension of the descriptor or layout that a step gives.
    Stride { step: usize, dim: usize },
    /// The number of elements of the layout that a step gives.
    Count(usize),
    /// The allocated pointer of the descriptor that a step gives.
    Allocated(usize),
    /// The aligned pointer of the descriptor that a step gives.
    Aligned(usize),
    /// The offset of the descriptor that a step gives.
    Offset(usize),
}

/// A parameter of a slice in a plan.
#[derive(Clone, Copy, Debug, PartialEq, Eq, Structural)]
pub enum Param {
    Static(usize),
    Dynamic(Ref),
}

/// Arithmetic on elements.
#[derive(Clone, Copy, Debug, PartialEq, Eq, Structural)]
pub enum ArithOp {
    Add,
    Sub,
    Mul,
    SDiv,
    UDiv,
    FAdd,
    FSub,
    FMul,
    FDiv,
}

/// Element-wise operations on memrefs.
#[derive(Clone, Copy, Debug, PartialEq, Eq, Structural)]
pub enum ElementWiseKind {
    Add,
    Sub,
    Mul,
    Div,
}

/// Functions that a plan calls.
#[derive(Clone, Copy, Debug, PartialEq, Eq, Structural)]
pub enum Callee {
    Malloc,
    Free,
    TrackedMalloc,
    TrackedDealloc,
}

/// A step of the body of a loop. `R` is a list of references and `P` one of parameters.
#[derive(Debug, PartialEq, Eq)]
#[verifier::ext_equal]
pub enum BodyStepOf<R, P> {
    /// Loads an element of a memref.
    LoadElement { ty: TypeHandle, memref: Ref, indices: R },
    /// Stores an element of a memref.
    StoreElement { value: Ref, memref: Ref, indices: R },
    /// Computes with two elements.
    Arith { op: ArithOp, lhs: Ref, rhs: Ref },
    /// Runs the region of the operation that is replaced, with the indices of the loop as
    /// arguments. Gives what the region yields.
    Region,
    /// Makes a view of a memref.
    Subview { source: Ref, offsets: P, sizes: P, steps: P },
    /// Gives a memref another shape.
    Reshape { source: Ref, dynamic: R, ty: TypeHandle },
    /// Adds the product of two matrices to a third one.
    MatMul { accum: Ref, lhs: Ref, rhs: Ref },
}

/// A step of a plan. `R` is a list of references, `P` one of parameters, and `B` one of steps
/// of a body.
#[derive(Debug, PartialEq, Eq)]
#[verifier::ext_equal]
pub enum StepOf<R, P, B> {
    /// A constant of index type.
    IndexConstant(usize),
    /// A constant of 64 bits.
    IntegerConstant(u64),
    /// An address from an integer.
    IntToPtr(Ref),
    /// An integer from an index.
    IndexToInteger { value: Ref, ty: TypeHandle },
    /// An index from an integer.
    IntegerToIndex { value: Ref, ty: TypeHandle },
    /// The sum of two integers.
    Add(Ref, Ref),
    /// The product of two integers.
    Mul(Ref, Ref),
    /// The number of bytes of a value of a type.
    TypeSize(TypeHandle),
    /// Takes a descriptor apart.
    UnpackDescriptor(Ref),
    /// Takes the sizes out of a descriptor.
    UnpackSizes(Ref),
    /// Takes the size in one dimension out of a descriptor.
    UnpackSize { memref: Ref, dim: usize },
    /// Takes the size in one dimension out of a descriptor, where the dimension is known only
    /// when the program runs.
    UnpackSizeAt { memref: Ref, at: Ref },
    /// Takes the allocated pointer out of a descriptor.
    UnpackAllocated(Ref),
    /// Takes the aligned pointer out of a descriptor.
    UnpackAligned(Ref),
    /// Takes the offset out of a descriptor.
    UnpackOffset(Ref),
    /// The row-major layout of a memref type with the given sizes of the dynamic dimensions.
    Layout { ty: TypeHandle, dynamic: R },
    /// Puts a descriptor together.
    PackDescriptor {
        ty: TypeHandle,
        allocated: Ref,
        aligned: Ref,
        offset: Ref,
        extents: R,
        strides: R,
    },
    /// The address of an element.
    ElementPtr { element_ty: TypeHandle, memref: Ref, indices: R },
    /// Loads from an address.
    Load { ptr: Ref, ty: TypeHandle },
    /// Stores to an address.
    Store { value: Ref, ptr: Ref },
    /// Calls a function.
    Call { callee: Callee, arguments: R },
    /// Runs the body for each index from `lower` up to `upper` by `step`, in all dimensions,
    /// the last of which varies fastest.
    Loop { lower: Ref, upper: R, step: Ref, body: B },
    /// Allocates a memref.
    Alloc { ty: TypeHandle, dynamic: R },
    /// Queries the size in a dimension of a memref.
    Dim { memref: Ref, at: Ref },
    /// Copies a memref.
    Copy { destination: Ref, source: Ref },
    /// Makes a view of a memref.
    Subview { source: Ref, offsets: P, sizes: P, steps: P },
    /// Gives a memref another shape.
    Reshape { source: Ref, dynamic: R, ty: TypeHandle },
    /// Adds the product of two matrices to a third one.
    MatMul { accum: Ref, lhs: Ref, rhs: Ref },
    /// Computes with two memrefs element by element.
    ElementWise { kind: ElementWiseKind, res: Ref, lhs: Ref, rhs: Ref },
    /// Fills a memref with what the region of the operation that is replaced yields.
    Generate { memref: Ref },
    /// Loads an element of a memref.
    LoadElement { ty: TypeHandle, memref: Ref, indices: R },
}

/// What takes the place of the results of the operation that is replaced. `R` is a list of
/// references.
#[derive(Debug, PartialEq, Eq)]
#[verifier::ext_equal]
pub enum ReplacementOf<R> {
    /// The results of a step.
    Step(usize),
    /// Values.
    Values(R),
}

pub type BodyStep = BodyStepOf<Vec<Ref>, Vec<Param>>;

pub type BodyStepView = BodyStepOf<Seq<Ref>, Seq<Param>>;

pub type Step = StepOf<Vec<Ref>, Vec<Param>, Vec<BodyStep>>;

pub type StepView = StepOf<Seq<Ref>, Seq<Param>, Seq<BodyStepView>>;

pub type Replacement = ReplacementOf<Vec<Ref>>;

pub type ReplacementView = ReplacementOf<Seq<Ref>>;

/// What a body step is.
pub open spec fn body_step_view(step: BodyStep) -> BodyStepView {
    match step {
        BodyStepOf::LoadElement { ty, memref, indices } => BodyStepOf::LoadElement {
            ty,
            memref,
            indices: indices@,
        },
        BodyStepOf::StoreElement { value, memref, indices } => BodyStepOf::StoreElement {
            value,
            memref,
            indices: indices@,
        },
        BodyStepOf::Arith { op, lhs, rhs } => BodyStepOf::Arith { op, lhs, rhs },
        BodyStepOf::Region => BodyStepOf::Region,
        BodyStepOf::Subview { source, offsets, sizes, steps } => BodyStepOf::Subview {
            source,
            offsets: offsets@,
            sizes: sizes@,
            steps: steps@,
        },
        BodyStepOf::Reshape { source, dynamic, ty } => BodyStepOf::Reshape {
            source,
            dynamic: dynamic@,
            ty,
        },
        BodyStepOf::MatMul { accum, lhs, rhs } => BodyStepOf::MatMul { accum, lhs, rhs },
    }
}

/// What a body is.
pub open spec fn body_view(body: Seq<BodyStep>) -> Seq<BodyStepView> {
    body.map_values(|step: BodyStep| body_step_view(step))
}

/// What a step is.
pub open spec fn step_view(step: Step) -> StepView {
    match step {
        StepOf::IndexConstant(n) => StepOf::IndexConstant(n),
        StepOf::IntegerConstant(n) => StepOf::IntegerConstant(n),
        StepOf::IntToPtr(value) => StepOf::IntToPtr(value),
        StepOf::IndexToInteger { value, ty } => StepOf::IndexToInteger { value, ty },
        StepOf::IntegerToIndex { value, ty } => StepOf::IntegerToIndex { value, ty },
        StepOf::Add(a, b) => StepOf::Add(a, b),
        StepOf::Mul(a, b) => StepOf::Mul(a, b),
        StepOf::TypeSize(ty) => StepOf::TypeSize(ty),
        StepOf::UnpackDescriptor(memref) => StepOf::UnpackDescriptor(memref),
        StepOf::UnpackSizes(memref) => StepOf::UnpackSizes(memref),
        StepOf::UnpackSize { memref, dim } => StepOf::UnpackSize { memref, dim },
        StepOf::UnpackSizeAt { memref, at } => StepOf::UnpackSizeAt { memref, at },
        StepOf::UnpackAllocated(memref) => StepOf::UnpackAllocated(memref),
        StepOf::UnpackAligned(memref) => StepOf::UnpackAligned(memref),
        StepOf::UnpackOffset(memref) => StepOf::UnpackOffset(memref),
        StepOf::Layout { ty, dynamic } => StepOf::Layout { ty, dynamic: dynamic@ },
        StepOf::PackDescriptor { ty, allocated, aligned, offset, extents, strides } => {
            StepOf::PackDescriptor {
                ty,
                allocated,
                aligned,
                offset,
                extents: extents@,
                strides: strides@,
            }
        },
        StepOf::ElementPtr { element_ty, memref, indices } => StepOf::ElementPtr {
            element_ty,
            memref,
            indices: indices@,
        },
        StepOf::Load { ptr, ty } => StepOf::Load { ptr, ty },
        StepOf::Store { value, ptr } => StepOf::Store { value, ptr },
        StepOf::Call { callee, arguments } => StepOf::Call { callee, arguments: arguments@ },
        StepOf::Loop { lower, upper, step, body } => StepOf::Loop {
            lower,
            upper: upper@,
            step,
            body: body_view(body@),
        },
        StepOf::Alloc { ty, dynamic } => StepOf::Alloc { ty, dynamic: dynamic@ },
        StepOf::Dim { memref, at } => StepOf::Dim { memref, at },
        StepOf::Copy { destination, source } => StepOf::Copy { destination, source },
        StepOf::Subview { source, offsets, sizes, steps } => StepOf::Subview {
            source,
            offsets: offsets@,
            sizes: sizes@,
            steps: steps@,
        },
        StepOf::Reshape { source, dynamic, ty } => StepOf::Reshape {
            source,
            dynamic: dynamic@,
            ty,
        },
        StepOf::MatMul { accum, lhs, rhs } => StepOf::MatMul { accum, lhs, rhs },
        StepOf::ElementWise { kind, res, lhs, rhs } => StepOf::ElementWise { kind, res, lhs, rhs },
        StepOf::Generate { memref } => StepOf::Generate { memref },
        StepOf::LoadElement { ty, memref, indices } => StepOf::LoadElement {
            ty,
            memref,
            indices: indices@,
        },
    }
}

/// What an operation is replaced by.
#[derive(Debug, PartialEq, Eq)]
pub struct Plan {
    pub steps: Vec<Step>,
    pub replacement: Replacement,
}

/// What a [Plan] is.
#[verifier::ext_equal]
pub struct PlanView {
    pub steps: Seq<StepView>,
    pub replacement: ReplacementView,
}

/// What a list of steps is.
pub open spec fn steps_view(steps: Seq<Step>) -> Seq<StepView> {
    steps.map_values(|step: Step| step_view(step))
}

impl View for Plan {
    type V = PlanView;

    open spec fn view(&self) -> PlanView {
        PlanView {
            steps: steps_view(self.steps@),
            replacement: match self.replacement {
                ReplacementOf::Step(n) => ReplacementOf::Step(n),
                ReplacementOf::Values(values) => ReplacementOf::Values(values@),
            },
        }
    }
}

/// Appends a step, and gives the reference to its result.
pub fn push(steps: &mut Vec<Step>, step: Step) -> (r: Ref)
    ensures
        steps_view(final(steps)@) == steps_view(old(steps)@).push(step_view(step)),
        final(steps)@.len() == old(steps)@.len() + 1,
        r == Ref::Step(old(steps)@.len() as usize),
{
    let n: usize = steps.len();
    steps.push(step);
    assert(steps_view(steps@) =~= steps_view(old(steps)@).push(step_view(step)));
    Ref::Step(n)
}

/// Appends a step to a body, and gives the reference to its result.
pub fn push_body(body: &mut Vec<BodyStep>, step: BodyStep) -> (r: Ref)
    ensures
        body_view(final(body)@) == body_view(old(body)@).push(body_step_view(step)),
        final(body)@.len() == old(body)@.len() + 1,
        r == Ref::Step(old(body)@.len() as usize),
{
    let n: usize = body.len();
    body.push(step);
    assert(body_view(body@) =~= body_view(old(body)@).push(body_step_view(step)));
    Ref::Step(n)
}

/// The values of the program, as references.
pub open spec fn value_refs(values: Seq<Value>) -> Seq<Ref> {
    values.map_values(|value: Value| Ref::Value(value))
}

/// The values of the program, as references.
pub fn refs_to_values(values: &Vec<Value>) -> (r: Vec<Ref>)
    ensures
        r@ == value_refs(values@),
{
    let mut refs: Vec<Ref> = Vec::new();
    let mut i: usize = 0;
    while i < values.len()
        invariant
            i <= values@.len(),
            refs@ == value_refs(values@).take(i as int),
        decreases values@.len() - i,
    {
        refs.push(Ref::Value(values[i]));
        i += 1;
        assert(refs@ =~= value_refs(values@).take(i as int));
    }
    assert(refs@ =~= value_refs(values@));
    refs
}

/// The sizes of the descriptor or layout that a step gives.
pub open spec fn size_refs(step: usize, rank: nat) -> Seq<Ref> {
    Seq::new(rank, |dim: int| Ref::Size { step, dim: dim as usize })
}

/// The strides of the descriptor or layout that a step gives.
pub open spec fn stride_refs(step: usize, rank: nat) -> Seq<Ref> {
    Seq::new(rank, |dim: int| Ref::Stride { step, dim: dim as usize })
}

/// The indices of the loop.
pub open spec fn induction_refs(rank: nat) -> Seq<Ref> {
    Seq::new(rank, |dim: int| Ref::Induction(dim as usize))
}

pub fn refs_to_sizes(step: usize, rank: usize) -> (r: Vec<Ref>)
    ensures
        r@ == size_refs(step, rank as nat),
{
    let mut refs: Vec<Ref> = Vec::new();
    let mut dim: usize = 0;
    while dim < rank
        invariant
            dim <= rank,
            refs@ == size_refs(step, dim as nat),
        decreases rank - dim,
    {
        refs.push(Ref::Size { step, dim });
        dim += 1;
        assert(refs@ =~= size_refs(step, dim as nat));
    }
    refs
}

pub fn refs_to_strides(step: usize, rank: usize) -> (r: Vec<Ref>)
    ensures
        r@ == stride_refs(step, rank as nat),
{
    let mut refs: Vec<Ref> = Vec::new();
    let mut dim: usize = 0;
    while dim < rank
        invariant
            dim <= rank,
            refs@ == stride_refs(step, dim as nat),
        decreases rank - dim,
    {
        refs.push(Ref::Stride { step, dim });
        dim += 1;
        assert(refs@ =~= stride_refs(step, dim as nat));
    }
    refs
}

pub fn refs_to_inductions(rank: usize) -> (r: Vec<Ref>)
    ensures
        r@ == induction_refs(rank as nat),
{
    let mut refs: Vec<Ref> = Vec::new();
    let mut dim: usize = 0;
    while dim < rank
        invariant
            dim <= rank,
            refs@ == induction_refs(dim as nat),
        decreases rank - dim,
    {
        refs.push(Ref::Induction(dim));
        dim += 1;
        assert(refs@ =~= induction_refs(dim as nat));
    }
    refs
}

} // verus!
