//! Lowering of the memref dialect to loops, arithmetic and descriptors.

use crate::ir;
use crate::ir::{
    Context, FuncOp, IntegerType, PointerLoadOp, Signedness, TypeHandle, TypeObj, TypeView, Value,
};
use crate::memref::lowering_laws;
use crate::memref::ops::{
    AddOp, AllocOp, CopyOp, DeallocOp, DimOp, DivOp, GenerateOp, LoadOp, MatMulOp, MulOp, ReshapeOp,
    StoreOp, SubOp, SubviewOp,
};
use crate::memref::slices::SliceParam;
use crate::memref::type_interfaces;
use crate::memref::type_interfaces::ShapedType;
use crate::memref::types::RankedMemrefType;
use crate::plan;
use crate::plan::{
    ArithOp, BodyStep, BodyStepOf, BodyStepView, Callee, ElementWiseKind, Plan, PlanView, Ref,
    ReplacementOf, Step, StepOf, StepView,
};
use crate::semantics;
use crate::semantics::Machine;
use crate::tensor::op_interfaces::{Rewrite, RewriteView};
use vstd::prelude::*;

verus! {

#[derive(Clone, Copy, Debug, PartialEq, Eq, Structural)]
pub enum AllocOpRewriteError {
    NearestSymbolTableNotFound,
}

#[derive(Clone, Copy, Debug, PartialEq, Eq, Structural)]
pub enum DeallocOpRewriteError {
    NearestSymbolTableNotFound,
}

#[derive(Clone, Copy, Debug, PartialEq, Eq, Structural)]
pub enum GenerateOpConversionErr {
    UnsupportedIVType,
}

#[derive(Clone, Copy, Debug, PartialEq, Eq, Structural)]
pub enum ElementWiseBinaryMemrefOpConversionErr {
    ExpectedMemrefTypeNotFound,
}

#[derive(Clone, Copy, Debug, PartialEq, Eq, Structural)]
pub enum MemrefMatMulOpConversionErr {
    ExpectedMemrefTypeNotFound,
}

#[derive(Clone, Copy, Debug, PartialEq, Eq, Structural)]
pub enum CopyOpConversionErr {
    MissingSourceOperandInfo,
}

#[derive(Clone, Copy, Debug, PartialEq, Eq, Structural)]
pub enum SubviewOpConversionErr {
    MissingSliceParams,
}

/// Allocates so many bytes as the elements of a memref need, and makes a row-major descriptor
/// at the address that `call` gives.
pub open spec fn alloc_steps(
    ty: TypeHandle,
    element_ty: TypeHandle,
    rank: nat,
    dynamic: Seq<Value>,
) -> PlanView {
    PlanView {
        steps: seq![
            StepOf::Layout { ty, dynamic: plan::value_refs(dynamic) },
            StepOf::TypeSize(element_ty),
            StepOf::Mul(Ref::Step(1), Ref::Count(0)),
            StepOf::Call { callee: Callee::Malloc, arguments: seq![Ref::Step(2)] },
            StepOf::IndexConstant(0),
            StepOf::PackDescriptor {
                ty,
                allocated: Ref::Step(3),
                aligned: Ref::Step(3),
                offset: Ref::Step(4),
                extents: plan::size_refs(0, rank),
                strides: plan::stride_refs(0, rank),
            },
        ],
        replacement: ReplacementOf::Values(seq![Ref::Step(5)]),
    }
}

impl AllocOp {
    /// The plan that replaces the operation.
    pub open spec fn lowered(&self, ctx: Context) -> PlanView {
        let ty = self.op.result_types@[0];
        let memref = ctx.as_memref(ty)->Some_0;
        alloc_steps(ty, memref.element_type, memref.shape.len(), self.op.operands@)
    }

    /// Replaces the allocation by a call of `malloc` for so many bytes as the elements need,
    /// and a row-major descriptor at the address that comes back.
    ///
    /// `has_symbol_table` says whether there is a symbol table to declare `malloc` in.
    pub fn rewrite(&self, ctx: &Context, has_symbol_table: bool) -> (r: Result<
        Plan,
        AllocOpRewriteError,
    >)
        requires
            self.wf(*ctx),
        ensures
            r is Err <==> !has_symbol_table,
            r matches Ok(plan) ==> plan@ == self.lowered(*ctx),
    {
        if !has_symbol_table {
            return Err(AllocOpRewriteError::NearestSymbolTableNotFound);
        }
        let ty: TypeHandle = self.op.result_types[0];
        assert(ctx.has(self.op.result_types@[0]));
        let memref_ty = ctx.ranked_memref(ty).unwrap();
        let rank: usize = memref_ty.rank();
        let mut steps: Vec<Step> = Vec::new();
        plan::push(
            &mut steps,
            StepOf::Layout { ty, dynamic: plan::refs_to_values(&self.op.operands) },
        );
        let element_size: Ref = plan::push(&mut steps, StepOf::TypeSize(memref_ty.element_type));
        let bytes: Ref = plan::push(&mut steps, StepOf::Mul(element_size, Ref::Count(0)));
        let allocated: Ref = plan::push(
            &mut steps,
            StepOf::Call { callee: Callee::Malloc, arguments: vec![bytes] },
        );
        let offset: Ref = plan::push(&mut steps, StepOf::IndexConstant(0));
        let descriptor: Ref = plan::push(
            &mut steps,
            StepOf::PackDescriptor {
                ty,
                allocated,
                aligned: allocated,
                offset,
                extents: plan::refs_to_sizes(0, rank),
                strides: plan::refs_to_strides(0, rank),
            },
        );
        let plan = Plan { steps, replacement: ReplacementOf::Values(vec![descriptor]) };
        assert(plan@.steps =~~= self.lowered(*ctx).steps);
        assert(plan@ =~= self.lowered(*ctx));
        Ok(plan)
    }
}

impl DeallocOp {
    /// The plan that replaces the operation.
    pub open spec fn lowered(&self) -> PlanView {
        PlanView {
            steps: seq![
                StepOf::UnpackAllocated(Ref::Value(self.op.operands@[0])),
                StepOf::Call { callee: Callee::Free, arguments: seq![Ref::Step(0)] },
            ],
            replacement: ReplacementOf::Step(1),
        }
    }

    /// Replaces the deallocation by a call of `free` on the allocated pointer.
    ///
    /// `has_symbol_table` says whether there is a symbol table to declare `free` in.
    pub fn rewrite(&self, has_symbol_table: bool) -> (r: Result<Plan, DeallocOpRewriteError>)
        requires
            self.wf(),
        ensures
            r is Err <==> !has_symbol_table,
            r matches Ok(plan) ==> plan@ == self.lowered(),
    {
        if !has_symbol_table {
            return Err(DeallocOpRewriteError::NearestSymbolTableNotFound);
        }
        let mut steps: Vec<Step> = Vec::new();
        let allocated: Ref = plan::push(
            &mut steps,
            StepOf::UnpackAllocated(Ref::Value(self.get_memref())),
        );
        plan::push(&mut steps, StepOf::Call { callee: Callee::Free, arguments: vec![allocated] });
        let plan = Plan { steps, replacement: ReplacementOf::Step(1) };
        assert(plan@.steps =~~= self.lowered().steps);
        Ok(plan)
    }
}

/// Runs a body for each index of a memref.
pub open spec fn for_each_index(memref: Ref, rank: nat, body: Seq<BodyStepView>) -> PlanView {
    PlanView {
        steps: seq![
            StepOf::UnpackSizes(memref),
            StepOf::IndexConstant(0),
            StepOf::IndexConstant(1),
            StepOf::Loop {
                lower: Ref::Step(1),
                upper: plan::size_refs(0, rank),
                step: Ref::Step(2),
                body,
            },
        ],
        replacement: ReplacementOf::Step(3),
    }
}

fn plan_for_each_index(memref: Ref, rank: usize, body: Vec<BodyStep>) -> (r: Plan)
    ensures
        r@ == for_each_index(memref, rank as nat, plan::body_view(body@)),
{
    let ghost view = plan::body_view(body@);
    let mut steps: Vec<Step> = Vec::new();
    plan::push(&mut steps, StepOf::UnpackSizes(memref));
    let lower: Ref = plan::push(&mut steps, StepOf::IndexConstant(0));
    let step: Ref = plan::push(&mut steps, StepOf::IndexConstant(1));
    plan::push(
        &mut steps,
        StepOf::Loop { lower, upper: plan::refs_to_sizes(0, rank), step, body },
    );
    let plan = Plan { steps, replacement: ReplacementOf::Step(3) };
    assert(plan@.steps =~= for_each_index(memref, rank as nat, view).steps);
    plan
}

/// Stores what the region yields.
pub open spec fn generate_body(memref: Ref, rank: nat) -> Seq<BodyStepView> {
    seq![
        BodyStepOf::Region,
        BodyStepOf::StoreElement {
            value: Ref::Step(0),
            memref,
            indices: plan::induction_refs(rank),
        },
    ]
}

impl GenerateOp {
    /// The plan that replaces the operation.
    pub open spec fn lowered(&self, ctx: Context) -> PlanView {
        let memref = self.op.operands@[0];
        let rank = ctx.as_memref(memref.ty)->Some_0.shape.len();
        for_each_index(Ref::Value(memref), rank, generate_body(Ref::Value(memref), rank))
    }

    /// Replaces the operation by a loop over all indices of the memref, which stores what the
    /// region yields for each.
    pub fn rewrite(&self, ctx: &Context) -> (r: Plan)
        requires
            self.wf(*ctx),
        ensures
            r@ == self.lowered(*ctx),
    {
        let memref: Value = self.get_destination_memref();
        let rank: usize = self.get_destination_memref_type(ctx).rank();
        let mut body: Vec<BodyStep> = Vec::new();
        let value: Ref = plan::push_body(&mut body, BodyStepOf::Region);
        plan::push_body(
            &mut body,
            BodyStepOf::StoreElement {
                value,
                memref: Ref::Value(memref),
                indices: plan::refs_to_inductions(rank),
            },
        );
        assert(plan::body_view(body@) =~= generate_body(Ref::Value(memref), rank as nat));
        plan_for_each_index(Ref::Value(memref), rank, body)
    }
}

impl StoreOp {
    /// The plan that replaces the operation.
    pub open spec fn lowered(&self) -> PlanView {
        let value = self.op.operands@[0];
        PlanView {
            steps: seq![
                StepOf::ElementPtr {
                    element_ty: value.ty,
                    memref: Ref::Value(self.op.operands@[1]),
                    indices: plan::value_refs(self.op.operands@.skip(2)),
                },
                StepOf::Store { value: Ref::Value(value), ptr: Ref::Step(0) },
            ],
            replacement: ReplacementOf::Step(1),
        }
    }

    /// Replaces the operation by a store to the address of the element.
    pub fn rewrite(&self) -> (r: Plan)
        requires
            self.op.operands@.len() >= 2,
        ensures
            r@ == self.lowered(),
    {
        let value: Value = self.get_value();
        let indices: Vec<Value> = self.get_indices();
        let mut steps: Vec<Step> = Vec::new();
        let ptr: Ref = plan::push(
            &mut steps,
            StepOf::ElementPtr {
                element_ty: value.ty,
                memref: Ref::Value(self.get_destination_memref()),
                indices: plan::refs_to_values(&indices),
            },
        );
        plan::push(&mut steps, StepOf::Store { value: Ref::Value(value), ptr });
        let plan = Plan { steps, replacement: ReplacementOf::Step(1) };
        assert(plan@.steps =~= self.lowered().steps);
        plan
    }
}

impl LoadOp {
    /// The plan that replaces the operation.
    pub open spec fn lowered(&self) -> PlanView {
        let ty = self.op.result_types@[0];
        PlanView {
            steps: seq![
                StepOf::ElementPtr {
                    element_ty: ty,
                    memref: Ref::Value(self.op.operands@[0]),
                    indices: plan::value_refs(self.op.operands@.skip(1)),
                },
                StepOf::Load { ptr: Ref::Step(0), ty },
            ],
            replacement: ReplacementOf::Step(1),
        }
    }

    /// Replaces the operation by a load from the address of the element.
    pub fn rewrite(&self) -> (r: Plan)
        requires
            self.op.operands@.len() >= 1,
            self.op.result_types@.len() == 1,
        ensures
            r@ == self.lowered(),
    {
        let ty: TypeHandle = self.op.result_types[0];
        let indices: Vec<Value> = self.get_indices();
        let mut steps: Vec<Step> = Vec::new();
        let ptr: Ref = plan::push(
            &mut steps,
            StepOf::ElementPtr {
                element_ty: ty,
                memref: Ref::Value(self.get_source_memref()),
                indices: plan::refs_to_values(&indices),
            },
        );
        plan::push(&mut steps, StepOf::Load { ptr, ty });
        let plan = Plan { steps, replacement: ReplacementOf::Step(1) };
        assert(plan@.steps =~= self.lowered().steps);
        plan
    }
}

impl DimOp {
    /// The plan that replaces the operation.
    pub open spec fn lowered(&self, constant: Option<usize>) -> PlanView {
        let memref = Ref::Value(self.op.operands@[0]);
        PlanView {
            steps: seq![
                match constant {
                    Some(dim) => StepOf::UnpackSize { memref, dim },
                    None => StepOf::UnpackSizeAt { memref, at: Ref::Value(self.op.operands@[1]) },
                },
            ],
            replacement: ReplacementOf::Values(seq![Ref::Step(0)]),
        }
    }

    /// Replaces the operation by reading the size from the descriptor.
    ///
    /// `constant` is the number of the dimension, if it is known.
    pub fn rewrite(&self, constant: Option<usize>) -> (r: Plan)
        requires
            self.op.operands@.len() == 2,
        ensures
            r@ == self.lowered(constant),
    {
        let memref = Ref::Value(self.get_source_memref());
        let mut steps: Vec<Step> = Vec::new();
        let size: Ref = match constant {
            Some(dim) => plan::push(&mut steps, StepOf::UnpackSize { memref, dim }),
            None => plan::push(
                &mut steps,
                StepOf::UnpackSizeAt { memref, at: Ref::Value(self.get_dimension_index()) },
            ),
        };
        let plan = Plan { steps, replacement: ReplacementOf::Values(vec![size]) };
        assert(plan@.steps =~= self.lowered(constant).steps);
        assert(plan@ =~= self.lowered(constant));
        plan
    }
}

/// The type is one of floating-point numbers.
pub open spec fn is_float(ctx: Context, ty: TypeHandle) -> bool {
    ctx.get(ty) is FP16 || ctx.get(ty) is FP32 || ctx.get(ty) is FP64
}

/// The arithmetic that an element-wise operation does on elements of the given type.
pub open spec fn arith_for(kind: ElementWiseKind, ctx: Context, ty: TypeHandle) -> ArithOp {
    match kind {
        ElementWiseKind::Add => if is_float(ctx, ty) {
            ArithOp::FAdd
        } else {
            ArithOp::Add
        },
        ElementWiseKind::Sub => if is_float(ctx, ty) {
            ArithOp::FSub
        } else {
            ArithOp::Sub
        },
        ElementWiseKind::Mul => if is_float(ctx, ty) {
            ArithOp::FMul
        } else {
            ArithOp::Mul
        },
        ElementWiseKind::Div => if is_float(ctx, ty) {
            ArithOp::FDiv
        } else if ctx.get(ty)->Integer_0.signedness is Unsigned {
            ArithOp::UDiv
        } else {
            ArithOp::SDiv
        },
    }
}

/// The type has the arithmetic that an element-wise operation needs.
pub open spec fn has_arith(kind: ElementWiseKind, ctx: Context, ty: TypeHandle) -> bool {
    &&& ctx.has(ty)
    &&& kind is Div ==> is_float(ctx, ty) || ctx.get(ty) is Integer
}

/// On elements of the given type, where they are numbers, the instruction computes what the kind
/// of operation says of the numbers.
pub open spec fn computes(
    op: ArithOp,
    kind: ElementWiseKind,
    ctx: Context,
    ty: TypeHandle,
) -> bool {
    forall|m: Machine, a: int, b: int|
        m.ctx == ctx && lowering_laws::has_numbers(m, kind, ty) ==> #[trigger] m.arith(op, a, b)
            == m.element_result(kind, a, b)
}

proof fn lemma_computes(kind: ElementWiseKind, ctx: Context, ty: TypeHandle)
    ensures
        computes(arith_for(kind, ctx, ty), kind, ctx, ty),
{
    let op = arith_for(kind, ctx, ty);
    assert forall|m: Machine, a: int, b: int|
        m.ctx == ctx && lowering_laws::has_numbers(m, kind, ty) implies #[trigger] m.arith(op, a, b)
        == m.element_result(kind, a, b) by {
        lowering_laws::law_selected_arithmetic(kind, m, ty, a, b);
    }
}

/// The arithmetic that an element-wise operation does on elements of the given type.
pub fn select_arith(kind: ElementWiseKind, ctx: &Context, ty: TypeHandle) -> (r: ArithOp)
    requires
        has_arith(kind, *ctx, ty),
    ensures
        r == arith_for(kind, *ctx, ty),
        computes(r, kind, *ctx, ty),
{
    proof {
        lemma_computes(kind, *ctx, ty);
    }
    let float: bool = match ctx.deref(ty) {
        TypeObj::FP16 => true,
        TypeObj::FP32 => true,
        TypeObj::FP64 => true,
        _ => false,
    };
    match kind {
        ElementWiseKind::Add => if float {
            ArithOp::FAdd
        } else {
            ArithOp::Add
        },
        ElementWiseKind::Sub => if float {
            ArithOp::FSub
        } else {
            ArithOp::Sub
        },
        ElementWiseKind::Mul => if float {
            ArithOp::FMul
        } else {
            ArithOp::Mul
        },
        ElementWiseKind::Div => match ctx.deref(ty) {
            TypeObj::Integer(integer) => match integer.signedness {
                Signedness::Unsigned => ArithOp::UDiv,
                _ => ArithOp::SDiv,
            },
            _ => ArithOp::FDiv,
        },
    }
}

/// Loads an element of each operand, computes, and stores the result.
pub open spec fn element_wise_body(
    op: ArithOp,
    element_ty: TypeHandle,
    res: Ref,
    lhs: Ref,
    rhs: Ref,
    rank: nat,
) -> Seq<BodyStepView> {
    let indices = plan::induction_refs(rank);
    seq![
        BodyStepOf::LoadElement { ty: element_ty, memref: lhs, indices },
        BodyStepOf::LoadElement { ty: element_ty, memref: rhs, indices },
        BodyStepOf::Arith { op, lhs: Ref::Step(0), rhs: Ref::Step(1) },
        BodyStepOf::StoreElement { value: Ref::Step(2), memref: res, indices },
    ]
}

/// The plan that replaces an element-wise operation with the given operands.
pub open spec fn element_wise_lowered(
    kind: ElementWiseKind,
    ctx: Context,
    element_ty: TypeHandle,
    operands: Seq<Value>,
) -> PlanView {
    let rank = ctx.as_memref(operands[0].ty)->Some_0.shape.len();
    for_each_index(
        Ref::Value(operands[0]),
        rank,
        element_wise_body(
            arith_for(kind, ctx, element_ty),
            element_ty,
            Ref::Value(operands[0]),
            Ref::Value(operands[1]),
            Ref::Value(operands[2]),
            rank,
        ),
    )
}

/// The operands of an element-wise operation: three, the first of which is a ranked memref.
pub open spec fn element_wise_wf(ctx: Context, operands: Seq<Value>) -> bool {
    &&& operands.len() == 3
    &&& ctx.has_values(operands)
    &&& ctx.as_memref(operands[0].ty) is Some
}

fn rewrite_element_wise(
    kind: ElementWiseKind,
    ctx: &Context,
    element_ty: Option<TypeHandle>,
    operands: &Vec<Value>,
) -> (r: Result<Plan, ElementWiseBinaryMemrefOpConversionErr>)
    requires
        element_wise_wf(*ctx, operands@),
        element_ty matches Some(ty) ==> has_arith(kind, *ctx, ty),
    ensures
        r is Err <==> element_ty is None,
        r matches Ok(plan) ==> plan@ == element_wise_lowered(
            kind,
            *ctx,
            element_ty->Some_0,
            operands@,
        ),
{
    let element_ty: TypeHandle = match element_ty {
        Some(ty) => ty,
        None => {
            return Err(ElementWiseBinaryMemrefOpConversionErr::ExpectedMemrefTypeNotFound);
        },
    };
    assert(ctx.has_value(operands@[0]));
    let rank: usize = ctx.ranked_memref(operands[0].ty).unwrap().rank();
    let res = Ref::Value(operands[0]);
    let mut body: Vec<BodyStep> = Vec::new();
    let a: Ref = plan::push_body(
        &mut body,
        BodyStepOf::LoadElement {
            ty: element_ty,
            memref: Ref::Value(operands[1]),
            indices: plan::refs_to_inductions(rank),
        },
    );
    let b: Ref = plan::push_body(
        &mut body,
        BodyStepOf::LoadElement {
            ty: element_ty,
            memref: Ref::Value(operands[2]),
            indices: plan::refs_to_inductions(rank),
        },
    );
    let value: Ref = plan::push_body(
        &mut body,
        BodyStepOf::Arith { op: select_arith(kind, ctx, element_ty), lhs: a, rhs: b },
    );
    plan::push_body(
        &mut body,
        BodyStepOf::StoreElement { value, memref: res, indices: plan::refs_to_inductions(rank) },
    );
    assert(plan::body_view(body@) =~= element_wise_body(
        arith_for(kind, *ctx, element_ty),
        element_ty,
        res,
        Ref::Value(operands@[1]),
        Ref::Value(operands@[2]),
        rank as nat,
    ));
    Ok(plan_for_each_index(res, rank, body))
}

impl AddOp {
    /// The plan that replaces the operation.
    pub open spec fn lowered(&self, ctx: Context, element_ty: TypeHandle) -> PlanView {
        element_wise_lowered(ElementWiseKind::Add, ctx, element_ty, self.op.operands@)
    }

    /// The arithmetic that is done on elements of the given type.
    pub fn build_llvm_op(&self, ctx: &Context, element_ty: TypeHandle) -> (r: ArithOp)
        requires
            has_arith(ElementWiseKind::Add, *ctx, element_ty),
        ensures
            r == arith_for(ElementWiseKind::Add, *ctx, element_ty),
            computes(r, ElementWiseKind::Add, *ctx, element_ty),
    {
        select_arith(ElementWiseKind::Add, ctx, element_ty)
    }

    /// Replaces the operation by a loop over all indices.
    ///
    /// `element_ty` is the element type of the result, if it is known.
    pub fn rewrite(&self, ctx: &Context, element_ty: Option<TypeHandle>) -> (r: Result<
        Plan,
        ElementWiseBinaryMemrefOpConversionErr,
    >)
        requires
            element_wise_wf(*ctx, self.op.operands@),
            element_ty matches Some(ty) ==> has_arith(ElementWiseKind::Add, *ctx, ty),
        ensures
            r is Err <==> element_ty is None,
            r matches Ok(plan) ==> plan@ == element_wise_lowered(
                ElementWiseKind::Add,
                *ctx,
                element_ty->Some_0,
                self.op.operands@,
            ),
            r matches Ok(plan) ==> plan@ == self.lowered(*ctx, element_ty->Some_0),
    {
        rewrite_element_wise(ElementWiseKind::Add, ctx, element_ty, &self.op.operands)
    }
}

impl SubOp {
    /// The plan that replaces the operation.
    pub open spec fn lowered(&self, ctx: Context, element_ty: TypeHandle) -> PlanView {
        element_wise_lowered(ElementWiseKind::Sub, ctx, element_ty, self.op.operands@)
    }

    /// The arithmetic that is done on elements of the given type.
    pub fn build_llvm_op(&self, ctx: &Context, element_ty: TypeHandle) -> (r: ArithOp)
        requires
            has_arith(ElementWiseKind::Sub, *ctx, element_ty),
        ensures
            r == arith_for(ElementWiseKind::Sub, *ctx, element_ty),
            computes(r, ElementWiseKind::Sub, *ctx, element_ty),
    {
        select_arith(ElementWiseKind::Sub, ctx, element_ty)
    }

    /// Replaces the operation by a loop over all indices.
    ///
    /// `element_ty` is the element type of the result, if it is known.
    pub fn rewrite(&self, ctx: &Context, element_ty: Option<TypeHandle>) -> (r: Result<
        Plan,
        ElementWiseBinaryMemrefOpConversionErr,
    >)
        requires
            element_wise_wf(*ctx, self.op.operands@),
            element_ty matches Some(ty) ==> has_arith(ElementWiseKind::Sub, *ctx, ty),
        ensures
            r is Err <==> element_ty is None,
            r matches Ok(plan) ==> plan@ == element_wise_lowered(
                ElementWiseKind::Sub,
                *ctx,
                element_ty->Some_0,
                self.op.operands@,
            ),
            r matches Ok(plan) ==> plan@ == self.lowered(*ctx, element_ty->Some_0),
    {
        rewrite_element_wise(ElementWiseKind::Sub, ctx, element_ty, &self.op.operands)
    }
}

impl MulOp {
    /// The plan that replaces the operation.
    pub open spec fn lowered(&self, ctx: Context, element_ty: TypeHandle) -> PlanView {
        element_wise_lowered(ElementWiseKind::Mul, ctx, element_ty, self.op.operands@)
    }

    /// The arithmetic that is done on elements of the given type.
    pub fn build_llvm_op(&self, ctx: &Context, element_ty: TypeHandle) -> (r: ArithOp)
        requires
            has_arith(ElementWiseKind::Mul, *ctx, element_ty),
        ensures
            r == arith_for(ElementWiseKind::Mul, *ctx, element_ty),
            computes(r, ElementWiseKind::Mul, *ctx, element_ty),
    {
        select_arith(ElementWiseKind::Mul, ctx, element_ty)
    }

    /// Replaces the operation by a loop over all indices.
    ///
    /// `element_ty` is the element type of the result, if it is known.
    pub fn rewrite(&self, ctx: &Context, element_ty: Option<TypeHandle>) -> (r: Result<
        Plan,
        ElementWiseBinaryMemrefOpConversionErr,
    >)
        requires
            element_wise_wf(*ctx, self.op.operands@),
            element_ty matches Some(ty) ==> has_arith(ElementWiseKind::Mul, *ctx, ty),
        ensures
            r is Err <==> element_ty is None,
            r matches Ok(plan) ==> plan@ == element_wise_lowered(
                ElementWiseKind::Mul,
                *ctx,
                element_ty->Some_0,
                self.op.operands@,
            ),
            r matches Ok(plan) ==> plan@ == self.lowered(*ctx, element_ty->Some_0),
    {
        rewrite_element_wise(ElementWiseKind::Mul, ctx, element_ty, &self.op.operands)
    }
}

impl DivOp {
    /// The plan that replaces the operation.
    pub open spec fn lowered(&self, ctx: Context, element_ty: TypeHandle) -> PlanView {
        element_wise_lowered(ElementWiseKind::Div, ctx, element_ty, self.op.operands@)
    }

    /// The arithmetic that is done on elements of the given type.
    pub fn build_llvm_op(&self, ctx: &Context, element_ty: TypeHandle) -> (r: ArithOp)
        requires
            has_arith(ElementWiseKind::Div, *ctx, element_ty),
        ensures
            r == arith_for(ElementWiseKind::Div, *ctx, element_ty),
            computes(r, ElementWiseKind::Div, *ctx, element_ty),
    {
        select_arith(ElementWiseKind::Div, ctx, element_ty)
    }

    /// Replaces the operation by a loop over all indices.
    ///
    /// `element_ty` is the element type of the result, if it is known.
    pub fn rewrite(&self, ctx: &Context, element_ty: Option<TypeHandle>) -> (r: Result<
        Plan,
        ElementWiseBinaryMemrefOpConversionErr,
    >)
        requires
            element_wise_wf(*ctx, self.op.operands@),
            element_ty matches Some(ty) ==> has_arith(ElementWiseKind::Div, *ctx, ty),
        ensures
            r is Err <==> element_ty is None,
            r matches Ok(plan) ==> plan@ == element_wise_lowered(
                ElementWiseKind::Div,
                *ctx,
                element_ty->Some_0,
                self.op.operands@,
            ),
            r matches Ok(plan) ==> plan@ == self.lowered(*ctx, element_ty->Some_0),
    {
        rewrite_element_wise(ElementWiseKind::Div, ctx, element_ty, &self.op.operands)
    }
}

/// Adds the product of an element of each factor to an element of the accumulator.
pub open spec fn mat_mul_body(
    ctx: Context,
    element_ty: TypeHandle,
    accum: Ref,
    lhs: Ref,
    rhs: Ref,
) -> Seq<BodyStepView> {
    let i = Ref::Induction(0);
    let j = Ref::Induction(1);
    let k = Ref::Induction(2);
    seq![
        BodyStepOf::LoadElement { ty: element_ty, memref: accum, indices: seq![i, j] },
        BodyStepOf::LoadElement { ty: element_ty, memref: lhs, indices: seq![i, k] },
        BodyStepOf::LoadElement { ty: element_ty, memref: rhs, indices: seq![k, j] },
        BodyStepOf::Arith {
            op: arith_for(ElementWiseKind::Mul, ctx, element_ty),
            lhs: Ref::Step(1),
            rhs: Ref::Step(2),
        },
        BodyStepOf::Arith {
            op: arith_for(ElementWiseKind::Add, ctx, element_ty),
            lhs: Ref::Step(0),
            rhs: Ref::Step(3),
        },
        BodyStepOf::StoreElement { value: Ref::Step(4), memref: accum, indices: seq![i, j] },
    ]
}

impl MatMulOp {
    /// The plan that replaces the operation.
    pub open spec fn lowered(&self, ctx: Context, element_ty: TypeHandle) -> PlanView {
        let accum = Ref::Value(self.op.operands@[0]);
        let lhs = Ref::Value(self.op.operands@[1]);
        let rhs = Ref::Value(self.op.operands@[2]);
        PlanView {
            steps: seq![
                StepOf::UnpackSizes(accum),
                StepOf::UnpackSizes(lhs),
                StepOf::IndexConstant(0),
                StepOf::IndexConstant(1),
                StepOf::Loop {
                    lower: Ref::Step(2),
                    upper: seq![
                        Ref::Size { step: 0, dim: 0 },
                        Ref::Size { step: 0, dim: 1 },
                        Ref::Size { step: 1, dim: 1 },
                    ],
                    step: Ref::Step(3),
                    body: mat_mul_body(ctx, element_ty, accum, lhs, rhs),
                },
            ],
            replacement: ReplacementOf::Values(seq![accum]),
        }
    }

    /// Replaces the operation by a loop over all rows, columns and inner indices, which adds
    /// the products to what the result memref holds. The result memref takes the place of the
    /// result.
    ///
    /// `element_ty` is the element type of the result memref, if it is known.
    pub fn rewrite(&self, ctx: &Context, element_ty: Option<TypeHandle>) -> (r: Result<
        Plan,
        MemrefMatMulOpConversionErr,
    >)
        requires
            self.op.operands@.len() == 3,
            element_ty matches Some(ty) ==> ctx.has(ty),
        ensures
            r is Err <==> element_ty is None,
            r matches Ok(plan) ==> plan@ == self.lowered(*ctx, element_ty->Some_0),
    {
        let ty: TypeHandle = match element_ty {
            Some(ty) => ty,
            None => {
                return Err(MemrefMatMulOpConversionErr::ExpectedMemrefTypeNotFound);
            },
        };
        let accum = Ref::Value(self.get_result_memref());
        let lhs = Ref::Value(self.get_lhs_memref());
        let rhs = Ref::Value(self.get_rhs_memref());
        let i = Ref::Induction(0);
        let j = Ref::Induction(1);
        let k = Ref::Induction(2);
        let mut body: Vec<BodyStep> = Vec::new();
        let acc: Ref = plan::push_body(
            &mut body,
            BodyStepOf::LoadElement { ty, memref: accum, indices: vec![i, j] },
        );
        let a: Ref = plan::push_body(
            &mut body,
            BodyStepOf::LoadElement { ty, memref: lhs, indices: vec![i, k] },
        );
        let b: Ref = plan::push_body(
            &mut body,
            BodyStepOf::LoadElement { ty, memref: rhs, indices: vec![k, j] },
        );
        let product: Ref = plan::push_body(
            &mut body,
            BodyStepOf::Arith {
                op: select_arith(ElementWiseKind::Mul, ctx, ty),
                lhs: a,
                rhs: b,
            },
        );
        let sum: Ref = plan::push_body(
            &mut body,
            BodyStepOf::Arith {
                op: select_arith(ElementWiseKind::Add, ctx, ty),
                lhs: acc,
                rhs: product,
            },
        );
        plan::push_body(
            &mut body,
            BodyStepOf::StoreElement { value: sum, memref: accum, indices: vec![i, j] },
        );
        let ghost view = plan::body_view(body@);
        assert(view =~~= mat_mul_body(*ctx, ty, accum, lhs, rhs));
        let mut steps: Vec<Step> = Vec::new();
        plan::push(&mut steps, StepOf::UnpackSizes(accum));
        plan::push(&mut steps, StepOf::UnpackSizes(lhs));
        let lower: Ref = plan::push(&mut steps, StepOf::IndexConstant(0));
        let step: Ref = plan::push(&mut steps, StepOf::IndexConstant(1));
        let upper: Vec<Ref> = vec![
            Ref::Size { step: 0, dim: 0 },
            Ref::Size { step: 0, dim: 1 },
            Ref::Size { step: 1, dim: 1 },
        ];
        plan::push(&mut steps, StepOf::Loop { lower, upper, step, body });
        let plan = Plan { steps, replacement: ReplacementOf::Values(vec![accum]) };
        assert(plan@.steps =~~= self.lowered(*ctx, ty).steps);
        assert(plan@ =~= self.lowered(*ctx, ty));
        Ok(plan)
    }
}

/// Loads an element of the source and stores it in the destination.
pub open spec fn copy_body(
    element_ty: TypeHandle,
    destination: Ref,
    source: Ref,
    rank: nat,
) -> Seq<BodyStepView> {
    let indices = plan::induction_refs(rank);
    seq![
        BodyStepOf::LoadElement { ty: element_ty, memref: source, indices },
        BodyStepOf::StoreElement { value: Ref::Step(0), memref: destination, indices },
    ]
}

impl CopyOp {
    /// The plan that replaces the operation.
    pub open spec fn lowered(&self, ctx: Context, element_ty: TypeHandle) -> PlanView {
        let destination = self.op.operands@[0];
        let rank = ctx.as_memref(destination.ty)->Some_0.shape.len();
        for_each_index(
            Ref::Value(destination),
            rank,
            copy_body(
                element_ty,
                Ref::Value(destination),
                Ref::Value(self.op.operands@[1]),
                rank,
            ),
        )
    }

    /// Replaces the operation by a loop over all indices of the destination.
    ///
    /// `element_ty` is the element type of the source, if it is known.
    pub fn rewrite(&self, ctx: &Context, element_ty: Option<TypeHandle>) -> (r: Result<
        Plan,
        CopyOpConversionErr,
    >)
        requires
            self.wf(*ctx),
        ensures
            r is Err <==> element_ty is None,
            r matches Ok(plan) ==> plan@ == self.lowered(*ctx, element_ty->Some_0),
    {
        let ty: TypeHandle = match element_ty {
            Some(ty) => ty,
            None => {
                return Err(CopyOpConversionErr::MissingSourceOperandInfo);
            },
        };
        assert(ctx.has_value(self.op.operands@[0]));
        let destination: Value = self.destination();
        let rank: usize = ctx.ranked_memref(destination.ty).unwrap().rank();
        let mut body: Vec<BodyStep> = Vec::new();
        let value: Ref = plan::push_body(
            &mut body,
            BodyStepOf::LoadElement {
                ty,
                memref: Ref::Value(self.source()),
                indices: plan::refs_to_inductions(rank),
            },
        );
        plan::push_body(
            &mut body,
            BodyStepOf::StoreElement {
                value,
                memref: Ref::Value(destination),
                indices: plan::refs_to_inductions(rank),
            },
        );
        assert(plan::body_view(body@) =~= copy_body(
            ty,
            Ref::Value(destination),
            Ref::Value(self.op.operands@[1]),
            rank as nat,
        ));
        Ok(plan_for_each_index(Ref::Value(destination), rank, body))
    }
}

impl ReshapeOp {
    /// The plan that replaces the operation.
    pub open spec fn lowered(&self, ctx: Context) -> PlanView {
        let ty = self.op.result_types@[0];
        let rank = ctx.as_memref(ty)->Some_0.shape.len();
        let source = Ref::Value(self.op.operands@[0]);
        PlanView {
            steps: seq![
                StepOf::Layout { ty, dynamic: plan::value_refs(self.op.operands@.skip(1)) },
                StepOf::UnpackAllocated(source),
                StepOf::UnpackAligned(source),
                StepOf::UnpackOffset(source),
                StepOf::PackDescriptor {
                    ty,
                    allocated: Ref::Step(1),
                    aligned: Ref::Step(2),
                    offset: Ref::Step(3),
                    extents: plan::size_refs(0, rank),
                    strides: plan::stride_refs(0, rank),
                },
            ],
            replacement: ReplacementOf::Values(seq![Ref::Step(4)]),
        }
    }

    /// Replaces the operation by a descriptor of the same storage, with the row-major layout
    /// of the new shape.
    pub fn rewrite(&self, ctx: &Context) -> (r: Plan)
        requires
            self.wf(*ctx),
        ensures
            r@ == self.lowered(*ctx),
    {
        let ty: TypeHandle = self.op.result_types[0];
        assert(ctx.has(self.op.result_types@[0]));
        let rank: usize = ctx.ranked_memref(ty).unwrap().rank();
        let source = Ref::Value(self.get_source());
        let dynamic: Vec<Value> = self.get_dynamic_dimensions();
        let mut steps: Vec<Step> = Vec::new();
        plan::push(&mut steps, StepOf::Layout { ty, dynamic: plan::refs_to_values(&dynamic) });
        let allocated: Ref = plan::push(&mut steps, StepOf::UnpackAllocated(source));
        let aligned: Ref = plan::push(&mut steps, StepOf::UnpackAligned(source));
        let offset: Ref = plan::push(&mut steps, StepOf::UnpackOffset(source));
        let descriptor: Ref = plan::push(
            &mut steps,
            StepOf::PackDescriptor {
                ty,
                allocated,
                aligned,
                offset,
                extents: plan::refs_to_sizes(0, rank),
                strides: plan::refs_to_strides(0, rank),
            },
        );
        let plan = Plan { steps, replacement: ReplacementOf::Values(vec![descriptor]) };
        assert(plan@.steps =~= self.lowered(*ctx).steps);
        assert(plan@ =~= self.lowered(*ctx));
        plan
    }
}

/// The types of what a plan computes with when it takes a view: those of index constants and
/// of the fields of the descriptor of the source.
#[derive(Debug)]
pub struct DescriptorTypes {
    pub index: TypeHandle,
    pub offset: TypeHandle,
    pub sizes: Vec<TypeHandle>,
    pub strides: Vec<TypeHandle>,
}

impl DescriptorTypes {
    /// All types are of `ctx`.
    pub open spec fn typed_in(&self, ctx: Context) -> bool {
        &&& ctx.has(self.index)
        &&& ctx.has(self.offset)
        &&& forall|i: int| 0 <= i < self.sizes@.len() ==> ctx.has(#[trigger] self.sizes@[i])
        &&& forall|i: int| 0 <= i < self.strides@.len() ==> ctx.has(#[trigger] self.strides@[i])
    }

    /// The type of a size: that of the first one, or that of the offset if there is none.
    pub open spec fn size(&self) -> TypeHandle {
        if self.sizes@.len() > 0 {
            self.sizes@[0]
        } else {
            self.offset
        }
    }
}

/// Steps with one constant for each of the first `n` parameters that is one, and the
/// references to all of the first `n` parameters.
pub open spec fn materialized(params: Seq<SliceParam>, steps: Seq<StepView>, n: nat) -> (
    Seq<StepView>,
    Seq<Ref>,
)
    decreases n,
{
    if n == 0 {
        (steps, Seq::empty())
    } else {
        let (before, refs) = materialized(params, steps, (n - 1) as nat);
        match params[n - 1] {
            SliceParam::Static(val) => (
                before.push(StepOf::IndexConstant(val)),
                refs.push(Ref::Step(before.len() as usize)),
            ),
            SliceParam::Dynamic(value) => (before, refs.push(Ref::Value(value))),
        }
    }
}

/// The types of parameters, where constants are of the given type.
pub open spec fn param_types(params: Seq<SliceParam>, index_ty: TypeHandle) -> Seq<TypeHandle> {
    Seq::new(
        params.len(),
        |i: int|
            match params[i] {
                SliceParam::Static(_) => index_ty,
                SliceParam::Dynamic(value) => value.ty,
            },
    )
}

/// Steps with a cast of `value` from `ty` to `target`, if one is needed, and the reference to
/// what comes out.
pub open spec fn cast_to(
    ctx: Context,
    value: Ref,
    ty: TypeHandle,
    target: TypeHandle,
    steps: Seq<StepView>,
) -> (Seq<StepView>, Ref) {
    if ty == target {
        (steps, value)
    } else if ctx.get(ty) is Index {
        (
            steps.push(StepOf::IndexToInteger { value, ty: target }),
            Ref::Step(steps.len() as usize),
        )
    } else if ctx.get(target) is Index {
        (
            steps.push(StepOf::IntegerToIndex { value, ty: target }),
            Ref::Step(steps.len() as usize),
        )
    } else {
        (steps, value)
    }
}

/// Steps with the casts of the first `n` values, and the references to what comes out.
pub open spec fn cast_all(
    ctx: Context,
    values: Seq<Ref>,
    types: Seq<TypeHandle>,
    targets: Seq<TypeHandle>,
    steps: Seq<StepView>,
    n: nat,
) -> (Seq<StepView>, Seq<Ref>)
    decreases n,
{
    if n == 0 {
        (steps, Seq::empty())
    } else {
        let (before, refs) = cast_all(ctx, values, types, targets, steps, (n - 1) as nat);
        let (after, r) = cast_to(ctx, values[n - 1], types[n - 1], targets[n - 1], before);
        (after, refs.push(r))
    }
}

/// Steps that add the first `n` offsets, each times the stride of the source, to the offset
/// of the source, and the reference to the sum.
pub open spec fn offset_sum(offsets: Seq<Ref>, steps: Seq<StepView>, n: nat) -> (
    Seq<StepView>,
    Ref,
)
    decreases n,
{
    if n == 0 {
        (steps, Ref::Offset(0))
    } else {
        let (before, sum) = offset_sum(offsets, steps, (n - 1) as nat);
        let scaled = before.push(
            StepOf::Mul(offsets[n - 1], Ref::Stride { step: 0, dim: (n - 1) as usize }),
        );
        let added = scaled.push(StepOf::Add(sum, Ref::Step(before.len() as usize)));
        (added, Ref::Step(scaled.len() as usize))
    }
}

/// Steps that multiply the first `n` strides of the source by a step each, and the references
/// to the products.
pub open spec fn scaled_strides(factors: Seq<Ref>, steps: Seq<StepView>, n: nat) -> (
    Seq<StepView>,
    Seq<Ref>,
)
    decreases n,
{
    if n == 0 {
        (steps, Seq::empty())
    } else {
        let (before, refs) = scaled_strides(factors, steps, (n - 1) as nat);
        (
            before.push(
                StepOf::Mul(Ref::Stride { step: 0, dim: (n - 1) as usize }, factors[n - 1]),
            ),
            refs.push(Ref::Step(before.len() as usize)),
        )
    }
}

/// One type, `n` times.
pub open spec fn repeated(ty: TypeHandle, n: nat) -> Seq<TypeHandle> {
    Seq::new(n, |i: int| ty)
}

pub open spec fn smaller(a: nat, b: nat) -> nat {
    if a <= b {
        a
    } else {
        b
    }
}

/// The plan that replaces a view with the given parameters.
pub open spec fn subview_lowered(
    ctx: Context,
    types: DescriptorTypes,
    source: Value,
    result_ty: TypeHandle,
    rank: nat,
    offsets: Seq<SliceParam>,
    sizes: Seq<SliceParam>,
    steps: Seq<SliceParam>,
) -> PlanView {
    let s0 = seq![StepOf::UnpackDescriptor(Ref::Value(source))];
    let (s1, offset_refs) = materialized(offsets, s0, offsets.len());
    let (s2, offset_values) = cast_all(
        ctx,
        offset_refs,
        param_types(offsets, types.index),
        repeated(types.offset, offsets.len()),
        s1,
        offsets.len(),
    );
    let (s3, size_refs) = materialized(sizes, s2, sizes.len());
    let (s4, size_values) = cast_all(
        ctx,
        size_refs,
        param_types(sizes, types.index),
        repeated(types.size(), sizes.len()),
        s3,
        sizes.len(),
    );
    let (s5, step_refs) = materialized(steps, s4, steps.len());
    let n = smaller(steps.len(), rank);
    let (s6, step_values) = cast_all(
        ctx,
        step_refs,
        param_types(steps, types.index),
        types.strides@,
        s5,
        n,
    );
    let (s7, offset) = offset_sum(offset_values, s6, smaller(offsets.len(), rank));
    let (s8, strides) = scaled_strides(step_values, s7, n);
    PlanView {
        steps: s8.push(
            StepOf::PackDescriptor {
                ty: result_ty,
                allocated: Ref::Allocated(0),
                aligned: Ref::Aligned(0),
                offset,
                extents: size_values,
                strides,
            },
        ),
        replacement: ReplacementOf::Values(seq![Ref::Step(s8.len() as usize)]),
    }
}

/// Appends a constant for each parameter that is one, and gives the references to all.
fn materialize_slice_params(steps: &mut Vec<Step>, params: &Vec<SliceParam>) -> (r: Vec<Ref>)
    ensures
        (plan::steps_view(final(steps)@), r@) == materialized(
            params@,
            plan::steps_view(old(steps)@),
            params@.len(),
        ),
{
    let mut refs: Vec<Ref> = Vec::new();
    let mut i: usize = 0;
    while i < params.len()
        invariant
            i <= params@.len(),
            (plan::steps_view(steps@), refs@) == materialized(
                params@,
                plan::steps_view(old(steps)@),
                i as nat,
            ),
        decreases params@.len() - i,
    {
        match params[i] {
            SliceParam::Static(val) => {
                let r: Ref = plan::push(steps, StepOf::IndexConstant(val));
                refs.push(r);
            },
            SliceParam::Dynamic(value) => {
                refs.push(Ref::Value(value));
            },
        }
        i += 1;
    }
    refs
}

fn types_of_params(params: &Vec<SliceParam>, index_ty: TypeHandle) -> (r: Vec<TypeHandle>)
    ensures
        r@ == param_types(params@, index_ty),
{
    let mut types: Vec<TypeHandle> = Vec::new();
    let mut i: usize = 0;
    while i < params.len()
        invariant
            i <= params@.len(),
            types@ == param_types(params@, index_ty).take(i as int),
        decreases params@.len() - i,
    {
        match params[i] {
            SliceParam::Static(_) => {
                types.push(index_ty);
            },
            SliceParam::Dynamic(value) => {
                types.push(value.ty);
            },
        }
        i += 1;
        assert(types@ =~= param_types(params@, index_ty).take(i as int));
    }
    assert(types@ =~= param_types(params@, index_ty));
    types
}

fn repeat_type(ty: TypeHandle, n: usize) -> (r: Vec<TypeHandle>)
    ensures
        r@ == repeated(ty, n as nat),
{
    let mut types: Vec<TypeHandle> = Vec::new();
    let mut i: usize = 0;
    while i < n
        invariant
            i <= n,
            types@ == repeated(ty, i as nat),
        decreases n - i,
    {
        types.push(ty);
        i += 1;
        assert(types@ =~= repeated(ty, i as nat));
    }
    types
}

/// Appends a cast of `value` from `ty` to `target`, if one is needed, and gives the reference
/// to what comes out.
fn cast_value_to_type(
    ctx: &Context,
    steps: &mut Vec<Step>,
    value: Ref,
    ty: TypeHandle,
    target: TypeHandle,
) -> (r: Ref)
    requires
        ctx.has(ty),
        ctx.has(target),
    ensures
        (plan::steps_view(final(steps)@), r) == cast_to(
            *ctx,
            value,
            ty,
            target,
            plan::steps_view(old(steps)@),
        ),
{
    if ty == target {
        return value;
    }
    if ctx.is_index(ty) {
        return plan::push(steps, StepOf::IndexToInteger { value, ty: target });
    }
    if ctx.is_index(target) {
        return plan::push(steps, StepOf::IntegerToIndex { value, ty: target });
    }
    value
}

fn cast_values(
    ctx: &Context,
    steps: &mut Vec<Step>,
    values: &Vec<Ref>,
    types: &Vec<TypeHandle>,
    targets: &Vec<TypeHandle>,
    n: usize,
) -> (r: Vec<Ref>)
    requires
        n <= values@.len(),
        n <= types@.len(),
        n <= targets@.len(),
        forall|i: int| 0 <= i < n ==> ctx.has(#[trigger] types@[i]),
        forall|i: int| 0 <= i < n ==> ctx.has(#[trigger] targets@[i]),
    ensures
        (plan::steps_view(final(steps)@), r@) == cast_all(
            *ctx,
            values@,
            types@,
            targets@,
            plan::steps_view(old(steps)@),
            n as nat,
        ),
{
    let mut refs: Vec<Ref> = Vec::new();
    let mut i: usize = 0;
    while i < n
        invariant
            i <= n,
            n <= values@.len(),
            n <= types@.len(),
            n <= targets@.len(),
            forall|i: int| 0 <= i < n ==> ctx.has(#[trigger] types@[i]),
            forall|i: int| 0 <= i < n ==> ctx.has(#[trigger] targets@[i]),
            (plan::steps_view(steps@), refs@) == cast_all(
                *ctx,
                values@,
                types@,
                targets@,
                plan::steps_view(old(steps)@),
                i as nat,
            ),
        decreases n - i,
    {
        let r: Ref = cast_value_to_type(ctx, steps, values[i], types[i], targets[i]);
        refs.push(r);
        i += 1;
    }
    refs
}

proof fn lemma_materialized_len(params: Seq<SliceParam>, steps: Seq<StepView>, n: nat)
    ensures
        materialized(params, steps, n).1.len() == n,
    decreases n,
{
    if n > 0 {
        lemma_materialized_len(params, steps, (n - 1) as nat);
    }
}

proof fn lemma_cast_all_len(
    ctx: Context,
    values: Seq<Ref>,
    types: Seq<TypeHandle>,
    targets: Seq<TypeHandle>,
    steps: Seq<StepView>,
    n: nat,
)
    ensures
        cast_all(ctx, values, types, targets, steps, n).1.len() == n,
    decreases n,
{
    if n > 0 {
        lemma_cast_all_len(ctx, values, types, targets, steps, (n - 1) as nat);
    }
}

impl SubviewOp {
    /// The plan that replaces the operation.
    pub open spec fn lowered(&self, ctx: Context, types: DescriptorTypes) -> PlanView {
        subview_lowered(
            ctx,
            types,
            self.op.operands@[0],
            self.op.result_types@[0],
            ctx.as_memref(self.op.operands@[0].ty)->Some_0.shape.len(),
            self.offsets(),
            self.sizes(),
            self.steps(),
        )
    }

    /// Replaces the operation by a descriptor of the same storage: the offsets, each times
    /// the stride of the source, are added to the offset of the source, and the strides are
    /// those of the source times the steps.
    pub fn rewrite(&self, ctx: &Context, types: &DescriptorTypes) -> (r: Plan)
        requires
            self.wf(*ctx),
            self.has_params(),
            types.typed_in(*ctx),
            types.strides@.len() == ctx.as_memref(self.op.operands@[0].ty)->Some_0.shape.len(),
        ensures
            r@ == self.lowered(*ctx, *types),
    {
        let source: Value = self.source();
        proof {
            assert(ctx.has_value(self.op.operands@[0]));
        }
        let rank: usize = ctx.ranked_memref(source.ty).unwrap().rank();
        let offsets: Vec<SliceParam> = self.slice_offsets();
        let sizes: Vec<SliceParam> = self.slice_sizes();
        let step_params: Vec<SliceParam> = self.slice_steps();
        proof {
            lemma_param_types_typed(
                *ctx,
                self.slice_params->Some_0.offsets@,
                self.op.operands@,
                types.index,
            );
            lemma_param_types_typed(
                *ctx,
                self.slice_params->Some_0.sizes@,
                self.op.operands@,
                types.index,
            );
            lemma_param_types_typed(
                *ctx,
                self.slice_params->Some_0.steps@,
                self.op.operands@,
                types.index,
            );
        }
        let size_ty: TypeHandle = if types.sizes.len() > 0 {
            assert(ctx.has(types.sizes@[0]));
            types.sizes[0]
        } else {
            types.offset
        };
        let mut steps: Vec<Step> = Vec::new();
        plan::push(&mut steps, StepOf::UnpackDescriptor(Ref::Value(source)));
        let ghost s0 = plan::steps_view(steps@);
        assert(s0 =~= seq![StepOf::UnpackDescriptor(Ref::Value(source))]);
        let offset_refs: Vec<Ref> = materialize_slice_params(&mut steps, &offsets);
        proof {
            lemma_materialized_len(offsets@, s0, offsets@.len());
        }
        let ghost s1 = plan::steps_view(steps@);
        let offset_types: Vec<TypeHandle> = types_of_params(&offsets, types.index);
        let offset_targets: Vec<TypeHandle> = repeat_type(types.offset, offsets.len());
        let offset_values: Vec<Ref> = cast_values(
            ctx,
            &mut steps,
            &offset_refs,
            &offset_types,
            &offset_targets,
            offsets.len(),
        );
        proof {
            lemma_cast_all_len(
                *ctx,
                offset_refs@,
                offset_types@,
                offset_targets@,
                s1,
                offsets@.len(),
            );
        }
        let ghost s2 = plan::steps_view(steps@);
        let size_refs: Vec<Ref> = materialize_slice_params(&mut steps, &sizes);
        proof {
            lemma_materialized_len(sizes@, s2, sizes@.len());
        }
        let size_types: Vec<TypeHandle> = types_of_params(&sizes, types.index);
        let size_targets: Vec<TypeHandle> = repeat_type(size_ty, sizes.len());
        let size_values: Vec<Ref> = cast_values(
            ctx,
            &mut steps,
            &size_refs,
            &size_types,
            &size_targets,
            sizes.len(),
        );
        let ghost s4 = plan::steps_view(steps@);
        let step_refs: Vec<Ref> = materialize_slice_params(&mut steps, &step_params);
        proof {
            lemma_materialized_len(step_params@, s4, step_params@.len());
        }
        let ghost s5 = plan::steps_view(steps@);
        let step_types: Vec<TypeHandle> = types_of_params(&step_params, types.index);
        let n: usize = if step_params.len() <= rank {
            step_params.len()
        } else {
            rank
        };
        let step_values: Vec<Ref> = cast_values(
            ctx,
            &mut steps,
            &step_refs,
            &step_types,
            &types.strides,
            n,
        );
        proof {
            lemma_cast_all_len(*ctx, step_refs@, step_types@, types.strides@, s5, n as nat);
        }
        let ghost s6 = plan::steps_view(steps@);
        let m: usize = if offsets.len() <= rank {
            offsets.len()
        } else {
            rank
        };
        let mut offset: Ref = Ref::Offset(0);
        let mut i: usize = 0;
        while i < m
            invariant
                i <= m <= offset_values@.len(),
                (plan::steps_view(steps@), offset) == offset_sum(offset_values@, s6, i as nat),
            decreases m - i,
        {
            let scaled: Ref = plan::push(
                &mut steps,
                StepOf::Mul(offset_values[i], Ref::Stride { step: 0, dim: i }),
            );
            offset = plan::push(&mut steps, StepOf::Add(offset, scaled));
            i += 1;
        }
        let ghost s7 = plan::steps_view(steps@);
        let mut strides: Vec<Ref> = Vec::new();
        let mut j: usize = 0;
        while j < n
            invariant
                j <= n <= step_values@.len(),
                (plan::steps_view(steps@), strides@) == scaled_strides(step_values@, s7, j as nat),
            decreases n - j,
        {
            let stride: Ref = plan::push(
                &mut steps,
                StepOf::Mul(Ref::Stride { step: 0, dim: j }, step_values[j]),
            );
            strides.push(stride);
            j += 1;
        }
        let descriptor: Ref = plan::push(
            &mut steps,
            StepOf::PackDescriptor {
                ty: self.op.result_types[0],
                allocated: Ref::Allocated(0),
                aligned: Ref::Aligned(0),
                offset,
                extents: size_values,
                strides,
            },
        );
        let plan = Plan { steps, replacement: ReplacementOf::Values(vec![descriptor]) };
        assert(plan@ =~= self.lowered(*ctx, *types));
        plan
    }
}

/// The types of parameters are of the context that the types of the operands are of.
proof fn lemma_param_types_typed(
    ctx: Context,
    attrs: Seq<crate::memref::attributes::SliceParamAttr>,
    operands: Seq<Value>,
    index_ty: TypeHandle,
)
    requires
        ctx.has(index_ty),
        ctx.has_values(operands),
        crate::memref::slices::refers_within(attrs, operands.len()),
    ensures
        forall|i: int|
            0 <= i < attrs.len() ==> ctx.has(
                #[trigger] param_types(
                    crate::memref::slices::params_of(attrs, operands),
                    index_ty,
                )[i],
            ),
{
    let params = crate::memref::slices::params_of(attrs, operands);
    assert forall|i: int| 0 <= i < attrs.len() implies ctx.has(
        #[trigger] param_types(params, index_ty)[i],
    ) by {
        if let crate::memref::attributes::SliceParamAttr::OperandIdx(idx) = attrs[i] {
            assert(attrs[i] matches crate::memref::attributes::SliceParamAttr::OperandIdx(k)
                ==> k < operands.len());
            assert(ctx.has_value(operands[idx as int]));
        }
    }
}

// Types
/// The type of a machine word.
pub open spec fn word_type() -> TypeView {
    TypeView::Integer(IntegerType { width: 64, signedness: Signedness::Signless })
}

/// The type of one word for each of `rank` dimensions.
pub open spec fn words_type(ctx: Context, rank: nat) -> TypeView {
    TypeView::Array { element_type: ctx.handle_of(word_type()), length: rank as u64 }
}

/// The type of the descriptor of a memref: the allocated and the aligned pointer, the offset,
/// and the size and the stride in each dimension.
pub open spec fn descriptor_type(ctx: Context, rank: nat) -> TypeView {
    let pointer = ctx.handle_of(TypeView::Pointer);
    let word = ctx.handle_of(word_type());
    let words = ctx.handle_of(words_type(ctx, rank));
    TypeView::Struct(seq![pointer, pointer, word, words, words])
}

/// The context holds the types that a descriptor is made of.
pub open spec fn holds_descriptor_parts(ctx: Context, rank: nat) -> bool {
    &&& ctx.holds(TypeView::Pointer)
    &&& ctx.holds(word_type())
    &&& ctx.holds(words_type(ctx, rank))
}

/// The type that a type is lowered to: a memref is held as its descriptor, and other types
/// stand for themselves.
pub open spec fn lowered_type(ctx: Context, ty: TypeView) -> TypeView {
    match ty {
        TypeView::RankedMemref { element_type, shape } => descriptor_type(ctx, shape.len()),
        _ => ty,
    }
}

/// The context holds the type that a type is lowered to, and what it is made of.
pub open spec fn holds_lowered(ctx: Context, ty: TypeView) -> bool {
    &&& ctx.holds(lowered_type(ctx, ty))
    &&& ty matches TypeView::RankedMemref { element_type, shape } ==> holds_descriptor_parts(
        ctx,
        shape.len(),
    )
}

/// The handle of the type that a type is lowered to.
pub open spec fn lowered_handle(ctx: Context, ty: TypeHandle) -> TypeHandle {
    ctx.handle_of(lowered_type(ctx, ctx.get(ty)))
}

/// A type stays lowered to the same handle as types are added.
proof fn lemma_lowered_type(ctx: Context, earlier: Context, ty: TypeView)
    requires
        ctx.wf(),
        ctx.extends(earlier),
        holds_lowered(earlier, ty),
    ensures
        holds_lowered(ctx, ty),
        lowered_type(ctx, ty) == lowered_type(earlier, ty),
        ctx.handle_of(lowered_type(ctx, ty)) == earlier.handle_of(lowered_type(earlier, ty)),
{
    match ty {
        TypeView::RankedMemref { element_type, shape } => {
            ir::lemma_extends(ctx, earlier, TypeView::Pointer);
            ir::lemma_extends(ctx, earlier, word_type());
            ir::lemma_extends(ctx, earlier, words_type(earlier, shape.len()));
        },
        _ => {},
    }
    ir::lemma_extends(ctx, earlier, lowered_type(earlier, ty));
}

impl RankedMemrefType {
    /// The handle of the type of the descriptor of a memref of this type.
    pub fn convert(&self, ctx: &mut Context) -> (r: TypeHandle)
        requires
            old(ctx).wf(),
        ensures
            final(ctx).wf(),
            final(ctx).extends(*old(ctx)),
            final(ctx).has(r),
            final(ctx).get(r) == descriptor_type(*final(ctx), self.shape@.len()),
            holds_descriptor_parts(*final(ctx), self.shape@.len()),
    {
        let rank: usize = self.rank();
        let pointer: TypeHandle = ctx.intern(TypeObj::Pointer);
        let ghost ctx1 = *ctx;
        let word: TypeHandle = ctx.intern(
            TypeObj::Integer(IntegerType { width: 64, signedness: Signedness::Signless }),
        );
        let ghost ctx2 = *ctx;
        let words: TypeHandle = ctx.intern(
            TypeObj::Array { element_type: word, length: rank as u64 },
        );
        let ghost ctx3 = *ctx;
        let fields: Vec<TypeHandle> = vec![pointer, pointer, word, words, words];
        let r: TypeHandle = ctx.intern(TypeObj::Struct(fields));
        proof {
            assert(ctx2@[pointer.id as int] == ctx1@[pointer.id as int]);
            assert(ctx3@[pointer.id as int] == ctx2@[pointer.id as int]);
            assert(ctx@[pointer.id as int] == ctx3@[pointer.id as int]);
            assert(ctx3@[word.id as int] == ctx2@[word.id as int]);
            assert(ctx@[word.id as int] == ctx3@[word.id as int]);
            assert(ctx@[words.id as int] == ctx3@[words.id as int]);
            ir::lemma_handle_of(*ctx, pointer);
            ir::lemma_handle_of(*ctx, word);
            ir::lemma_handle_of(*ctx, words);
            assert(ctx.get(r) =~= descriptor_type(*ctx, self.shape@.len()));
        }
        r
    }
}

/// The handle of the type that `ty` is lowered to.
pub fn to_llvm_type(ty: TypeHandle, ctx: &mut Context) -> (r: TypeHandle)
    requires
        old(ctx).wf(),
        old(ctx).has(ty),
    ensures
        final(ctx).wf(),
        final(ctx).extends(*old(ctx)),
        final(ctx).has(r),
        holds_lowered(*final(ctx), final(ctx).get(ty)),
        r == lowered_handle(*final(ctx), ty),
        old(ctx).as_memref(ty) is None ==> r == ty && final(ctx)@ == old(ctx)@,
{
    let ghost start = *ctx;
    let memref = match ctx.ranked_memref(ty) {
        Some(memref) => RankedMemrefType {
            element_type: memref.element_type,
            shape: type_interfaces::copy_shape(&memref.shape),
        },
        None => {
            proof {
                ir::lemma_handle_of(*ctx, ty);
            }
            return ty;
        },
    };
    let r: TypeHandle = memref.convert(ctx);
    proof {
        assert(ctx@[ty.id as int] == start@[ty.id as int]);
        ir::lemma_handle_of(*ctx, r);
    }
    r
}

/// The handles of the types that `types` are lowered to.
pub open spec fn lowered_handles(ctx: Context, types: Seq<TypeHandle>) -> Seq<TypeHandle> {
    types.map_values(|ty: TypeHandle| lowered_handle(ctx, ty))
}

/// The context holds what `types` are lowered to.
pub open spec fn holds_all_lowered(ctx: Context, types: Seq<TypeHandle>) -> bool {
    forall|i: int| 0 <= i < types.len() ==> holds_lowered(ctx, ctx.get(#[trigger] types[i]))
}

proof fn lemma_lowered_handles(ctx: Context, earlier: Context, types: Seq<TypeHandle>)
    requires
        ctx.wf(),
        ctx.extends(earlier),
        earlier.has_types(types),
        holds_all_lowered(earlier, types),
    ensures
        holds_all_lowered(ctx, types),
        lowered_handles(ctx, types) == lowered_handles(earlier, types),
{
    assert forall|i: int| 0 <= i < types.len() implies holds_lowered(
        ctx,
        ctx.get(#[trigger] types[i]),
    ) && lowered_handle(ctx, types[i]) == lowered_handle(earlier, types[i]) by {
        assert(earlier.has(types[i]));
        assert(ctx@[types[i].id as int] == earlier@[types[i].id as int]);
        lemma_lowered_type(ctx, earlier, earlier.get(types[i]));
    }
    assert(lowered_handles(ctx, types) =~= lowered_handles(earlier, types));
}

fn lower_types(types: &Vec<TypeHandle>, ctx: &mut Context) -> (r: Vec<TypeHandle>)
    requires
        old(ctx).wf(),
        old(ctx).has_types(types@),
    ensures
        final(ctx).wf(),
        final(ctx).extends(*old(ctx)),
        final(ctx).has_types(r@),
        holds_all_lowered(*final(ctx), types@),
        r@ == lowered_handles(*final(ctx), types@),
{
    let ghost start = *ctx;
    let mut lowered: Vec<TypeHandle> = Vec::new();
    let mut i: usize = 0;
    while i < types.len()
        invariant
            i <= types@.len(),
            start.has_types(types@),
            ctx.wf(),
            ctx.extends(start),
            ctx.has_types(lowered@),
            holds_all_lowered(*ctx, types@.take(i as int)),
            lowered@ == lowered_handles(*ctx, types@.take(i as int)),
        decreases types@.len() - i,
    {
        let ghost before = *ctx;
        let ghost done = types@.take(i as int);
        assert(start.has(types@[i as int]));
        let ty: TypeHandle = to_llvm_type(types[i], ctx);
        proof {
            assert forall|k: int| 0 <= k < done.len() implies before.has(#[trigger] done[k]) by {
                assert(start.has(types@[k]));
            }
            lemma_lowered_handles(*ctx, before, done);
            assert forall|k: int| 0 <= k < lowered@.len() implies ctx.has(
                #[trigger] lowered@[k],
            ) by {
                assert(before.has(lowered@[k]));
            }
        }
        lowered.push(ty);
        i += 1;
        proof {
            let now = types@.take(i as int);
            assert(now =~= done.push(types@[i - 1]));
            assert forall|k: int| 0 <= k < now.len() implies holds_lowered(
                *ctx,
                ctx.get(#[trigger] now[k]),
            ) by {
                if k < done.len() {
                    assert(holds_lowered(*ctx, ctx.get(done[k])));
                }
            }
            assert(lowered@ =~= lowered_handles(*ctx, now));
        }
    }
    assert(types@.take(types@.len() as int) =~= types@);
    lowered
}

/// The signature of a function whose memrefs are descriptors.
pub open spec fn lowered_signature(ctx: Context, signature: TypeView) -> TypeView {
    TypeView::Function {
        result: lowered_handle(ctx, signature->Function_result),
        arguments: lowered_handles(ctx, signature->Function_arguments),
    }
}

/// Replaces every memref in the signature of a function and among the arguments of its first
/// block by a descriptor.
pub fn lower_func_op_to_llvm(func_op: &FuncOp, ctx: &mut Context) -> (r: FuncOp)
    requires
        old(ctx).wf(),
        func_op.wf(*old(ctx)),
    ensures
        final(ctx).wf(),
        final(ctx).extends(*old(ctx)),
        r.wf(*final(ctx)),
        final(ctx).get(r.ty) == lowered_signature(*final(ctx), final(ctx).get(func_op.ty)),
        r.ty == final(ctx).handle_of(
            lowered_signature(*final(ctx), final(ctx).get(func_op.ty)),
        ),
        r.arguments@ == lowered_handles(*final(ctx), func_op.arguments@),
        holds_all_lowered(*final(ctx), func_op.arguments@),
{
    let ghost start = *ctx;
    let (old_result, old_arguments): (TypeHandle, Vec<TypeHandle>) = match ctx.deref(func_op.ty) {
        TypeObj::Function { result, arguments } => (*result, ir::copy_types(arguments)),
        _ => {
            assert(false);
            (func_op.ty, Vec::new())
        },
    };
    let result: TypeHandle = to_llvm_type(old_result, ctx);
    let ghost ctx1 = *ctx;
    proof {
        assert forall|i: int| 0 <= i < old_arguments@.len() implies ctx1.has(
            #[trigger] old_arguments@[i],
        ) by {
            assert(start.has(old_arguments@[i]));
        }
    }
    let arguments: Vec<TypeHandle> = lower_types(&old_arguments, ctx);
    let ghost ctx2 = *ctx;
    let ghost new_arguments = arguments@;
    let ty: TypeHandle = ctx.intern(TypeObj::Function { result, arguments });
    let ghost ctx3 = *ctx;
    proof {
        assert forall|i: int| 0 <= i < func_op.arguments@.len() implies ctx3.has(
            #[trigger] func_op.arguments@[i],
        ) by {
            assert(start.has(func_op.arguments@[i]));
        }
    }
    let block_arguments: Vec<TypeHandle> = lower_types(&func_op.arguments, ctx);
    proof {
        let signature = start.get(func_op.ty);
        assert(ctx@[func_op.ty.id as int] == signature) by {
            assert(ctx1@[func_op.ty.id as int] == start@[func_op.ty.id as int]);
            assert(ctx2@[func_op.ty.id as int] == ctx1@[func_op.ty.id as int]);
            assert(ctx3@[func_op.ty.id as int] == ctx2@[func_op.ty.id as int]);
        }
        assert(ctx2.extends(ctx1));
        assert(ctx3.extends(ctx2));
        assert(ctx.extends(ctx3));
        assert(ctx.extends(ctx2)) by {
            assert forall|i: int| 0 <= i < ctx2@.len() implies #[trigger] ctx@[i] == ctx2@[i] by {
                assert(ctx3@[i] == ctx2@[i]);
            }
        }
        assert(ctx.extends(ctx1)) by {
            assert forall|i: int| 0 <= i < ctx1@.len() implies #[trigger] ctx@[i] == ctx1@[i] by {
                assert(ctx2@[i] == ctx1@[i]);
            }
        }
        assert(ctx@[old_result.id as int] == ctx1@[old_result.id as int]);
        lemma_lowered_type(*ctx, ctx1, ctx1.get(old_result));
        assert(result == lowered_handle(*ctx, old_result));
        assert(ctx2.has_types(old_arguments@)) by {
            assert forall|i: int| 0 <= i < old_arguments@.len() implies ctx2.has(
                #[trigger] old_arguments@[i],
            ) by {
                assert(ctx1.has(old_arguments@[i]));
            }
        }
        lemma_lowered_handles(*ctx, ctx2, old_arguments@);
        assert(ctx@[ty.id as int] == ctx3@[ty.id as int]);
        assert(ctx.get(ty) =~= lowered_signature(*ctx, signature));
        ir::lemma_handle_of(*ctx, ty);
        assert forall|i: int| 0 <= i < new_arguments.len() implies ctx.has(
            #[trigger] new_arguments[i],
        ) by {
            assert(ctx2.has(new_arguments[i]));
        }
    }
    FuncOp { ty, arguments: block_arguments }
}

/// The number of words that a field of a descriptor takes.
pub open spec fn field_words(ctx: Context, ty: TypeHandle) -> nat {
    match ctx.get(ty) {
        TypeView::Array { element_type, length } => length as nat,
        _ => 1,
    }
}

/// The number of words that fields take.
pub open spec fn words_in(ctx: Context, fields: Seq<TypeHandle>) -> nat
    decreases fields.len(),
{
    if fields.len() == 0 {
        0
    } else {
        words_in(ctx, fields.drop_last()) + field_words(ctx, fields.last())
    }
}

/// A descriptor takes three words, and two more for each dimension.
pub proof fn law_descriptor_words(ctx: Context, rank: nat)
    requires
        ctx.wf(),
        holds_descriptor_parts(ctx, rank),
        rank <= u64::MAX,
    ensures
        descriptor_type(ctx, rank) matches TypeView::Struct(fields) && words_in(ctx, fields) == 3
            + 2 * rank,
{
    let pointer = ctx.handle_of(TypeView::Pointer);
    let word = ctx.handle_of(word_type());
    let words = ctx.handle_of(words_type(ctx, rank));
    let none = Seq::<TypeHandle>::empty();
    let fields = seq![pointer, pointer, word, words, words];
    assert(ctx.get(pointer) == TypeView::Pointer);
    assert(ctx.get(word) == word_type());
    assert(ctx.get(words) == words_type(ctx, rank));
    assert(words_in(ctx, none) == 0);
    let f1 = none.push(pointer);
    assert(f1.drop_last() =~= none);
    assert(words_in(ctx, f1) == 1);
    let f2 = f1.push(pointer);
    assert(f2.drop_last() =~= f1);
    assert(words_in(ctx, f2) == 2);
    let f3 = f2.push(word);
    assert(f3.drop_last() =~= f2);
    assert(words_in(ctx, f3) == 3);
    let f4 = f3.push(words);
    assert(f4.drop_last() =~= f3);
    assert(words_in(ctx, f4) == 3 + rank);
    assert(fields.drop_last() =~= f4);
}

/// Whether an operation is one that [MemrefToCF] lowers, and how.
#[derive(Debug)]
pub enum LoweredOp {
    /// An operation of the memref dialect, which lowers itself.
    Memref,
    /// A function.
    Func(FuncOp),
    /// A load from an address.
    PointerLoad(PointerLoadOp),
    /// Any other operation.
    Other,
}

/// The lowering of the memref dialect.
#[derive(Clone, Copy, Debug, PartialEq, Eq, Structural)]
pub struct MemrefToCF;

impl MemrefToCF {
    /// Whether the operation is lowered.
    pub fn can_convert_op(&self, op: &LoweredOp) -> (r: bool)
        ensures
            r == !(op is Other),
    {
        match op {
            LoweredOp::Other => false,
            _ => true,
        }
    }

    /// Whether the type is lowered to another one.
    pub fn can_convert_type(&self, ctx: &Context, ty: TypeHandle) -> (r: bool)
        requires
            ctx.has(ty),
        ensures
            r == (ctx.as_memref(ty) is Some),
    {
        ctx.ranked_memref(ty).is_some()
    }

    /// The type that a type is lowered to.
    pub fn convert_type(&self, ctx: &mut Context, ty: TypeHandle) -> (r: TypeHandle)
        requires
            old(ctx).wf(),
            old(ctx).has(ty),
        ensures
            final(ctx).wf(),
            final(ctx).extends(*old(ctx)),
            final(ctx).has(r),
            holds_lowered(*final(ctx), final(ctx).get(ty)),
            r == lowered_handle(*final(ctx), ty),
            old(ctx).as_memref(ty) is None ==> r == ty && final(ctx)@ == old(ctx)@,
    {
        to_llvm_type(ty, ctx)
    }

    /// What becomes of a function or a load. An operation of the memref dialect lowers itself,
    /// so that nothing is returned for it.
    pub fn rewrite(&self, ctx: &mut Context, op: &LoweredOp) -> (r: Option<Rewrite>)
        requires
            old(ctx).wf(),
            op matches LoweredOp::Func(func_op) ==> func_op.wf(*old(ctx)),
            op matches LoweredOp::PointerLoad(load_op) ==> load_op.wf(*old(ctx)),
        ensures
            final(ctx).wf(),
            final(ctx).extends(*old(ctx)),
            match *op {
                LoweredOp::Func(func_op) => r matches Some(rewrite) && rewrite@
                    == (RewriteView::Signature {
                    ty: final(ctx).handle_of(
                        lowered_signature(*final(ctx), final(ctx).get(func_op.ty)),
                    ),
                    arguments: lowered_handles(*final(ctx), func_op.arguments@),
                }),
                LoweredOp::PointerLoad(load_op) => r matches Some(rewrite) && rewrite@
                    == (RewriteView::Retyped {
                    arguments: Seq::empty(),
                    results: seq![lowered_handle(*final(ctx), load_op.op.result_types@[0])],
                }),
                _ => r is None && final(ctx)@ == old(ctx)@,
            },
    {
        match op {
            LoweredOp::Func(func_op) => Some(
                Rewrite::Signature(lower_func_op_to_llvm(func_op, ctx)),
            ),
            LoweredOp::PointerLoad(load_op) => Some(lower_llvm_load_op_to_llvm(load_op, ctx)),
            _ => None,
        }
    }
}

/// A load of a memref loads a descriptor.
fn lower_llvm_load_op_to_llvm(load_op: &PointerLoadOp, ctx: &mut Context) -> (r: Rewrite)
    requires
        old(ctx).wf(),
        load_op.wf(*old(ctx)),
    ensures
        final(ctx).wf(),
        final(ctx).extends(*old(ctx)),
        r@ == (RewriteView::Retyped {
            arguments: Seq::empty(),
            results: seq![lowered_handle(*final(ctx), load_op.op.result_types@[0])],
        }),
{
    assert(ctx.has(load_op.op.result_types@[0]));
    let ty: TypeHandle = to_llvm_type(load_op.op.result_types[0], ctx);
    let r = Rewrite::Retyped { arguments: Vec::new(), results: vec![ty] };
    assert(r@ =~= RewriteView::Retyped {
        arguments: Seq::empty(),
        results: seq![lowered_handle(*ctx, load_op.op.result_types@[0])],
    });
    r
}

} // verus!
