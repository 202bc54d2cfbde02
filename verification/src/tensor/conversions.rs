//! Lowering of the tensor dialect to the memref dialect.

use crate::ir;
use crate::ir::{Context, ForOp, FuncOp, PointerLoadOp, TypeHandle, TypeObj, TypeView, Value};
use crate::memref;
use crate::memref::ToMemrefType;
use crate::memref::slices::SliceParam;
use crate::memref::type_interfaces;
use crate::memref::type_interfaces::{Dimension, ShapedType};
use crate::memref::types::RankedMemrefType;
use crate::plan;
use crate::plan::{
    BodyStep, BodyStepOf, BodyStepView, ElementWiseKind, Param, Plan, PlanView, Ref, ReplacementOf,
    Step, StepOf, StepView,
};
use crate::tensor::bufferize::{Alias, AliasKind, BufferRelation, DefiningEntity, Use};
use crate::tensor::op_interfaces::{BufferizableOpInterface, Rewrite, RewriteView};
use crate::tensor::ops::{
    AddOp, BatchMatMulOp, DivOp, ExtractOp, ExtractSliceOp, GenerateOp, InsertSliceOp, MatMulOp,
    MulOp, ReshapeOp, SubOp,
};
use crate::tensor::types::RankedTensorType;
use vstd::prelude::*;

verus! {

impl ToMemrefType for RankedTensorType {
    open spec fn converted(&self) -> TypeView {
        TypeView::RankedMemref { element_type: self.element_type, shape: self.shape@ }
    }

    fn convert(&self, ctx: &mut Context) -> (r: TypeHandle) {
        RankedMemrefType::get(ctx, self.element_type, type_interfaces::copy_shape(&self.shape))
    }
}

#[derive(Clone, Copy, Debug, PartialEq, Eq, Structural)]
pub enum GenerateOpConversionErr {
    UnsupportedIVType,
}

/// The handle of the memref type that stands for `ty`.
pub open spec fn stored_handle(ctx: Context, ty: TypeHandle) -> TypeHandle {
    ctx.handle_of(memref::stored_as(ctx.get(ty)))
}

/// The handle of the memref type that stands for `ty`.
pub(crate) fn tensor_type_to_memref_type(ty: TypeHandle, ctx: &mut Context) -> (r: TypeHandle)
    requires
        old(ctx).wf(),
        old(ctx).has(ty),
    ensures
        final(ctx).wf(),
        final(ctx).extends(*old(ctx)),
        final(ctx).holds(memref::stored_as(final(ctx).get(ty))),
        r == stored_handle(*final(ctx), ty),
{
    let ghost start = *ctx;
    let r: TypeHandle = memref::to_memref_type(ty, ctx);
    proof {
        assert(ctx@[ty.id as int] == start@[ty.id as int]);
        ir::lemma_handle_of(*ctx, r);
    }
    r
}

/// The memref types that stand for `types`.
pub open spec fn stored_handles(ctx: Context, types: Seq<TypeHandle>) -> Seq<TypeHandle> {
    types.map_values(|ty: TypeHandle| stored_handle(ctx, ty))
}

/// The context holds the memref types that stand for `types`.
pub open spec fn holds_stored(ctx: Context, types: Seq<TypeHandle>) -> bool {
    forall|i: int|
        0 <= i < types.len() ==> ctx.holds(memref::stored_as(ctx.get(#[trigger] types[i])))
}

proof fn lemma_stored_handles(ctx: Context, earlier: Context, types: Seq<TypeHandle>)
    requires
        ctx.wf(),
        ctx.extends(earlier),
        earlier.has_types(types),
        holds_stored(earlier, types),
    ensures
        holds_stored(ctx, types),
        stored_handles(ctx, types) == stored_handles(earlier, types),
{
    assert forall|i: int| 0 <= i < types.len() implies ctx.holds(
        memref::stored_as(ctx.get(#[trigger] types[i])),
    ) && stored_handle(ctx, types[i]) == stored_handle(earlier, types[i]) by {
        assert(earlier.has(types[i]));
        assert(ctx@[types[i].id as int] == earlier@[types[i].id as int]);
        ir::lemma_extends(ctx, earlier, memref::stored_as(earlier.get(types[i])));
    }
    assert(stored_handles(ctx, types) =~= stored_handles(earlier, types));
}

fn convert_types(types: &Vec<TypeHandle>, ctx: &mut Context) -> (r: Vec<TypeHandle>)
    requires
        old(ctx).wf(),
        old(ctx).has_types(types@),
    ensures
        final(ctx).wf(),
        final(ctx).extends(*old(ctx)),
        final(ctx).has_types(r@),
        holds_stored(*final(ctx), types@),
        r@ == stored_handles(*final(ctx), types@),
{
    let ghost start = *ctx;
    let mut converted: Vec<TypeHandle> = Vec::new();
    let mut i: usize = 0;
    while i < types.len()
        invariant
            i <= types@.len(),
            start.has_types(types@),
            ctx.wf(),
            ctx.extends(start),
            ctx.has_types(converted@),
            holds_stored(*ctx, types@.take(i as int)),
            converted@ == stored_handles(*ctx, types@.take(i as int)),
        decreases types@.len() - i,
    {
        let ghost before = *ctx;
        let ghost done = types@.take(i as int);
        assert(start.has(types@[i as int]));
        let ty: TypeHandle = tensor_type_to_memref_type(types[i], ctx);
        proof {
            assert forall|k: int| 0 <= k < done.len() implies before.has(#[trigger] done[k]) by {
                assert(start.has(types@[k]));
            }
            lemma_stored_handles(*ctx, before, done);
            assert forall|k: int| 0 <= k < converted@.len() implies ctx.has(
                #[trigger] converted@[k],
            ) by {
                assert(before.has(converted@[k]));
            }
        }
        converted.push(ty);
        i += 1;
        proof {
            let now = types@.take(i as int);
            assert(now =~= done.push(types@[i - 1]));
            assert forall|k: int| 0 <= k < now.len() implies ctx.holds(
                memref::stored_as(ctx.get(#[trigger] now[k])),
            ) by {
                if k < done.len() {
                    assert(ctx.holds(memref::stored_as(ctx.get(done[k]))));
                }
            }
            assert(converted@ =~= stored_handles(*ctx, now));
        }
    }
    assert(types@.take(types@.len() as int) =~= types@);
    converted
}

/// The operand shares its buffer with the only result.
pub open spec fn one_alias(
    at: usize,
    index: usize,
    results: Seq<usize>,
    relation: BufferRelation,
) -> Seq<Alias> {
    seq![
        Alias { operand: Use { op: at, index }, result: results[0], kind: AliasKind::Must, relation },
    ]
}

fn make_alias(at: usize, index: usize, results: &[usize], relation: BufferRelation) -> (r: Vec<Alias>)
    requires
        results@.len() == 1,
    ensures
        r@ == one_alias(at, index, results@, relation),
{
    vec![
        Alias { operand: Use { op: at, index }, result: results[0], kind: AliasKind::Must, relation },
    ]
}

/// Results can be written in place, and arguments of blocks cannot.
fn is_result(definer: DefiningEntity) -> (r: bool)
    ensures
        r == (definer is Op),
{
    match definer {
        DefiningEntity::Op(_) => true,
        DefiningEntity::Block(_) => false,
    }
}

// Tensors from indices
impl GenerateOp {
    /// Allocates a memref and fills it with what the region yields.
    pub open spec fn bufferized(&self, ctx: Context) -> PlanView {
        PlanView {
            steps: seq![
                StepOf::Alloc {
                    ty: stored_handle(ctx, self.op.result_types@[0]),
                    dynamic: plan::value_refs(self.op.operands@),
                },
                StepOf::Generate { memref: Ref::Step(0) },
            ],
            replacement: ReplacementOf::Step(0),
        }
    }
}

impl BufferizableOpInterface for GenerateOp {
    open spec fn operands(&self) -> Seq<Value> {
        self.op.operands@
    }

    open spec fn num_results(&self) -> nat {
        1
    }

    open spec fn takes_tensor(&self, opd: int) -> bool {
        true
    }

    open spec fn reads(&self, opd: int) -> bool {
        false
    }

    open spec fn writes(&self, opd: int) -> bool {
        false
    }

    open spec fn aliases(&self, at: usize, results: Seq<usize>) -> Seq<Alias> {
        Seq::empty()
    }

    open spec fn dynamic_sizes(&self, opd: int) -> Option<Seq<Value>> {
        Some(self.op.operands@)
    }

    open spec fn writable(&self, definer: DefiningEntity) -> bool {
        definer is Op
    }

    open spec fn ready(&self, ctx: Context) -> bool {
        self.wf(ctx)
    }

    open spec fn rewritten(&self, ctx: Context) -> RewriteView {
        RewriteView::Replaced(self.bufferized(ctx))
    }

    fn get_num_operands(&self) -> (r: usize) {
        self.op.operands.len()
    }

    fn operand_bufferizes_to_memory_read(&self, opd: usize) -> (r: bool) {
        false
    }

    fn operand_bufferizes_to_memory_write(&self, opd: usize) -> (r: bool) {
        false
    }

    fn get_operand_result_aliases(&self, at: usize, results: &[usize]) -> (r: Vec<Alias>) {
        Vec::new()
    }

    fn get_dynamic_dimensions(&self, opd: usize) -> (r: Option<Vec<Value>>) {
        Some(self.dynamic_dimensions())
    }

    fn is_writable(&self, definer: DefiningEntity) -> (r: bool) {
        is_result(definer)
    }

    fn rewrite(&self, ctx: &mut Context) -> (r: Rewrite) {
        assert(ctx.has(self.op.result_types@[0]));
        let ty: TypeHandle = tensor_type_to_memref_type(self.op.result_types[0], ctx);
        let mut steps: Vec<Step> = Vec::new();
        let memref: Ref = plan::push(
            &mut steps,
            StepOf::Alloc { ty, dynamic: plan::refs_to_values(&self.op.operands) },
        );
        plan::push(&mut steps, StepOf::Generate { memref });
        let plan = Plan { steps, replacement: ReplacementOf::Step(0) };
        assert(plan@.steps =~= self.bufferized(*ctx).steps);
        Rewrite::Replaced(plan)
    }

    proof fn law_writes_alias(&self, at: usize, results: Seq<usize>) {
    }
}

// Elements
impl ExtractOp {
    /// Loads the element.
    pub open spec fn bufferized(&self) -> PlanView {
        PlanView {
            steps: seq![
                StepOf::LoadElement {
                    ty: self.op.result_types@[0],
                    memref: Ref::Value(self.op.operands@[0]),
                    indices: plan::value_refs(self.op.operands@.skip(1)),
                },
            ],
            replacement: ReplacementOf::Step(0),
        }
    }
}

impl BufferizableOpInterface for ExtractOp {
    open spec fn operands(&self) -> Seq<Value> {
        self.op.operands@
    }

    open spec fn num_results(&self) -> nat {
        1
    }

    open spec fn takes_tensor(&self, opd: int) -> bool {
        true
    }

    open spec fn reads(&self, opd: int) -> bool {
        opd == 0
    }

    open spec fn writes(&self, opd: int) -> bool {
        false
    }

    open spec fn aliases(&self, at: usize, results: Seq<usize>) -> Seq<Alias> {
        Seq::empty()
    }

    open spec fn dynamic_sizes(&self, opd: int) -> Option<Seq<Value>> {
        None
    }

    open spec fn writable(&self, definer: DefiningEntity) -> bool {
        definer is Op
    }

    open spec fn ready(&self, ctx: Context) -> bool {
        self.op.operands@.len() >= 1 && self.op.result_types@.len() == 1
    }

    open spec fn rewritten(&self, ctx: Context) -> RewriteView {
        RewriteView::Replaced(self.bufferized())
    }

    fn get_num_operands(&self) -> (r: usize) {
        self.op.operands.len()
    }

    fn operand_bufferizes_to_memory_read(&self, opd: usize) -> (r: bool) {
        opd == 0
    }

    fn operand_bufferizes_to_memory_write(&self, opd: usize) -> (r: bool) {
        false
    }

    fn get_operand_result_aliases(&self, at: usize, results: &[usize]) -> (r: Vec<Alias>) {
        Vec::new()
    }

    fn get_dynamic_dimensions(&self, opd: usize) -> (r: Option<Vec<Value>>) {
        None
    }

    fn is_writable(&self, definer: DefiningEntity) -> (r: bool) {
        is_result(definer)
    }

    fn rewrite(&self, ctx: &mut Context) -> (r: Rewrite) {
        let indices: Vec<Value> = self.get_index_operands();
        let mut steps: Vec<Step> = Vec::new();
        plan::push(
            &mut steps,
            StepOf::LoadElement {
                ty: self.op.result_types[0],
                memref: Ref::Value(self.get_tensor_operand()),
                indices: plan::refs_to_values(&indices),
            },
        );
        let plan = Plan { steps, replacement: ReplacementOf::Step(0) };
        assert(plan@.steps =~= self.bufferized().steps);
        Rewrite::Replaced(plan)
    }

    proof fn law_writes_alias(&self, at: usize, results: Seq<usize>) {
    }
}

// Element-wise operations
/// The shape of the result of an element-wise operation: where one operand has a static
/// dimension, so has the result.
pub open spec fn merged_shape(lhs: Seq<Dimension>, rhs: Seq<Dimension>) -> Seq<Dimension> {
    Seq::new(
        lhs.len(),
        |i: int|
            if lhs[i] is Static {
                lhs[i]
            } else {
                rhs[i]
            },
    )
}

/// The dynamic dimensions of a shape, in order.
pub open spec fn dynamic_dims(shape: Seq<Dimension>) -> Seq<int>
    decreases shape.len(),
{
    if shape.len() == 0 {
        Seq::empty()
    } else {
        let rest = dynamic_dims(shape.drop_last());
        if shape.last() is Dynamic {
            rest.push(shape.len() - 1)
        } else {
            rest
        }
    }
}

/// Asks a memref for its sizes in some dimensions.
pub open spec fn unpack_steps(memref: Ref, dims: Seq<int>) -> Seq<StepView> {
    dims.map_values(|dim: int| StepOf::UnpackSize { memref, dim: dim as usize })
}

/// The results of the first `n` steps.
pub open spec fn first_steps(n: nat) -> Seq<Ref> {
    Seq::new(n, |i: int| Ref::Step(i as usize))
}

/// Allocates a memref of the shape that the operands agree on, and computes the elements.
pub open spec fn element_wise_bufferized(
    kind: ElementWiseKind,
    ctx: Context,
    operands: Seq<Value>,
    result_type: TypeHandle,
) -> PlanView {
    let lhs = Ref::Value(operands[0]);
    let rhs = Ref::Value(operands[1]);
    let shape = element_wise_shape(ctx, operands);
    let dims = dynamic_dims(shape);
    PlanView {
        steps: unpack_steps(lhs, dims).push(
            StepOf::Alloc {
                ty: ctx.handle_of(element_wise_type(ctx, operands, result_type)),
                dynamic: first_steps(dims.len()),
            },
        ).push(
            StepOf::ElementWise { kind, res: Ref::Step(dims.len() as usize), lhs, rhs },
        ),
        replacement: ReplacementOf::Step(dims.len() as usize),
    }
}

/// The shape that the operands of an element-wise operation agree on.
pub open spec fn element_wise_shape(ctx: Context, operands: Seq<Value>) -> Seq<Dimension> {
    merged_shape(
        ctx.as_memref(operands[0].ty)->Some_0.shape,
        ctx.as_memref(operands[1].ty)->Some_0.shape,
    )
}

/// The type of the memref that an element-wise operation allocates.
pub open spec fn element_wise_type(
    ctx: Context,
    operands: Seq<Value>,
    result_type: TypeHandle,
) -> TypeView {
    TypeView::RankedMemref {
        element_type: ctx.as_tensor(result_type)->Some_0.element_type,
        shape: element_wise_shape(ctx, operands),
    }
}

/// Two operands that are memrefs of one rank, and a result that is a tensor.
pub open spec fn element_wise_ready(
    ctx: Context,
    operands: Seq<Value>,
    result_types: Seq<TypeHandle>,
) -> bool {
    &&& operands.len() == 2
    &&& result_types.len() == 1
    &&& ctx.has_values(operands)
    &&& ctx.has(result_types[0])
    &&& ctx.as_tensor(result_types[0]) is Some
    &&& ctx.as_memref(operands[0].ty) is Some
    &&& ctx.as_memref(operands[1].ty) is Some
    &&& ctx.as_memref(operands[0].ty)->Some_0.shape.len() == ctx.as_memref(
        operands[1].ty,
    )->Some_0.shape.len()
}

fn compatible_shape(lhs: &Vec<Dimension>, rhs: &Vec<Dimension>) -> (r: Vec<Dimension>)
    requires
        lhs@.len() == rhs@.len(),
    ensures
        r@ == merged_shape(lhs@, rhs@),
{
    let mut shape: Vec<Dimension> = Vec::new();
    let mut i: usize = 0;
    while i < lhs.len()
        invariant
            i <= lhs@.len() == rhs@.len(),
            shape@ == merged_shape(lhs@, rhs@).take(i as int),
        decreases lhs@.len() - i,
    {
        match lhs[i] {
            Dimension::Static(_) => {
                shape.push(lhs[i]);
            },
            Dimension::Dynamic => {
                shape.push(rhs[i]);
            },
        }
        i += 1;
        assert(shape@ =~= merged_shape(lhs@, rhs@).take(i as int));
    }
    assert(shape@ =~= merged_shape(lhs@, rhs@));
    shape
}

/// Appends the steps that ask a memref for its sizes in the dynamic dimensions of a shape.
fn push_dynamic_sizes(steps: &mut Vec<Step>, memref: Ref, shape: &Vec<Dimension>) -> (r: Vec<Ref>)
    requires
        old(steps)@.len() == 0,
    ensures
        plan::steps_view(final(steps)@) == unpack_steps(memref, dynamic_dims(shape@)),
        final(steps)@.len() == dynamic_dims(shape@).len(),
        r@ == first_steps(dynamic_dims(shape@).len()),
{
    let mut refs: Vec<Ref> = Vec::new();
    let mut i: usize = 0;
    assert(shape@.take(0) =~= Seq::<Dimension>::empty());
    assert(plan::steps_view(steps@) =~= unpack_steps(memref, dynamic_dims(shape@.take(0))));
    assert(refs@ =~= first_steps(0));
    while i < shape.len()
        invariant
            i <= shape@.len(),
            plan::steps_view(steps@) == unpack_steps(memref, dynamic_dims(shape@.take(i as int))),
            steps@.len() == dynamic_dims(shape@.take(i as int)).len(),
            refs@ == first_steps(dynamic_dims(shape@.take(i as int)).len()),
        decreases shape@.len() - i,
    {
        let ghost before = dynamic_dims(shape@.take(i as int));
        proof {
            assert(shape@.take(i + 1).drop_last() =~= shape@.take(i as int));
        }
        if let Dimension::Dynamic = shape[i] {
            refs.push(plan::push(steps, StepOf::UnpackSize { memref, dim: i }));
        }
        i += 1;
        proof {
            let dims = dynamic_dims(shape@.take(i as int));
            assert(plan::steps_view(steps@) =~= unpack_steps(memref, dims));
            assert(refs@ =~= first_steps(dims.len()));
        }
    }
    assert(shape@.take(shape@.len() as int) =~= shape@);
    refs
}

fn rewrite_element_wise(
    kind: ElementWiseKind,
    operands: &Vec<Value>,
    result_types: &Vec<TypeHandle>,
    ctx: &mut Context,
) -> (r: Rewrite)
    requires
        old(ctx).wf(),
        element_wise_ready(*old(ctx), operands@, result_types@),
    ensures
        final(ctx).wf(),
        final(ctx).extends(*old(ctx)),
        final(ctx).holds(element_wise_type(*final(ctx), operands@, result_types@[0])),
        r@ == RewriteView::Replaced(
            element_wise_bufferized(kind, *final(ctx), operands@, result_types@[0]),
        ),
{
    let ghost start = *ctx;
    assert(ctx.has_value(operands@[0]));
    assert(ctx.has_value(operands@[1]));
    let lhs = Ref::Value(operands[0]);
    let rhs = Ref::Value(operands[1]);
    let shape: Vec<Dimension> = compatible_shape(
        &ctx.ranked_memref(operands[0].ty).unwrap().shape,
        &ctx.ranked_memref(operands[1].ty).unwrap().shape,
    );
    let element_type: TypeHandle = ctx.ranked_tensor(result_types[0]).unwrap().element_type;
    let mut steps: Vec<Step> = Vec::new();
    let dynamic: Vec<Ref> = push_dynamic_sizes(&mut steps, lhs, &shape);
    let n: usize = steps.len();
    let ty: TypeHandle = RankedMemrefType::get(ctx, element_type, shape);
    proof {
        assert(ctx@[operands@[0].ty.id as int] == start@[operands@[0].ty.id as int]);
        assert(ctx@[operands@[1].ty.id as int] == start@[operands@[1].ty.id as int]);
        assert(ctx@[result_types@[0].id as int] == start@[result_types@[0].id as int]);
        ir::lemma_handle_of(*ctx, ty);
    }
    let res: Ref = plan::push(&mut steps, StepOf::Alloc { ty, dynamic });
    plan::push(&mut steps, StepOf::ElementWise { kind, res, lhs, rhs });
    let plan = Plan { steps, replacement: ReplacementOf::Step(n) };
    assert(plan@.steps =~= element_wise_bufferized(
        kind,
        *ctx,
        operands@,
        result_types@[0],
    ).steps);
    Rewrite::Replaced(plan)
}

impl BufferizableOpInterface for AddOp {
    open spec fn operands(&self) -> Seq<Value> {
        self.op.operands@
    }

    open spec fn num_results(&self) -> nat {
        1
    }

    open spec fn takes_tensor(&self, opd: int) -> bool {
        true
    }

    open spec fn reads(&self, opd: int) -> bool {
        true
    }

    open spec fn writes(&self, opd: int) -> bool {
        false
    }

    open spec fn aliases(&self, at: usize, results: Seq<usize>) -> Seq<Alias> {
        Seq::empty()
    }

    open spec fn dynamic_sizes(&self, opd: int) -> Option<Seq<Value>> {
        None
    }

    open spec fn writable(&self, definer: DefiningEntity) -> bool {
        definer is Op
    }

    open spec fn ready(&self, ctx: Context) -> bool {
        element_wise_ready(ctx, self.op.operands@, self.op.result_types@)
    }

    open spec fn rewritten(&self, ctx: Context) -> RewriteView {
        RewriteView::Replaced(
            element_wise_bufferized(
                ElementWiseKind::Add,
                ctx,
                self.op.operands@,
                self.op.result_types@[0],
            ),
        )
    }

    fn get_num_operands(&self) -> (r: usize) {
        self.op.operands.len()
    }

    fn operand_bufferizes_to_memory_read(&self, opd: usize) -> (r: bool) {
        true
    }

    fn operand_bufferizes_to_memory_write(&self, opd: usize) -> (r: bool) {
        false
    }

    fn get_operand_result_aliases(&self, at: usize, results: &[usize]) -> (r: Vec<Alias>) {
        Vec::new()
    }

    fn get_dynamic_dimensions(&self, opd: usize) -> (r: Option<Vec<Value>>) {
        None
    }

    fn is_writable(&self, definer: DefiningEntity) -> (r: bool) {
        is_result(definer)
    }

    fn rewrite(&self, ctx: &mut Context) -> (r: Rewrite)
        ensures
            final(ctx).holds(
                element_wise_type(*final(ctx), self.op.operands@, self.op.result_types@[0]),
            ),
    {
        rewrite_element_wise(
            ElementWiseKind::Add,
            &self.op.operands,
            &self.op.result_types,
            ctx,
        )
    }

    proof fn law_writes_alias(&self, at: usize, results: Seq<usize>) {
    }
}

impl BufferizableOpInterface for SubOp {
    open spec fn operands(&self) -> Seq<Value> {
        self.op.operands@
    }

    open spec fn num_results(&self) -> nat {
        1
    }

    open spec fn takes_tensor(&self, opd: int) -> bool {
        true
    }

    open spec fn reads(&self, opd: int) -> bool {
        true
    }

    open spec fn writes(&self, opd: int) -> bool {
        false
    }

    open spec fn aliases(&self, at: usize, results: Seq<usize>) -> Seq<Alias> {
        Seq::empty()
    }

    open spec fn dynamic_sizes(&self, opd: int) -> Option<Seq<Value>> {
        None
    }

    open spec fn writable(&self, definer: DefiningEntity) -> bool {
        definer is Op
    }

    open spec fn ready(&self, ctx: Context) -> bool {
        element_wise_ready(ctx, self.op.operands@, self.op.result_types@)
    }

    open spec fn rewritten(&self, ctx: Context) -> RewriteView {
        RewriteView::Replaced(
            element_wise_bufferized(
                ElementWiseKind::Sub,
                ctx,
                self.op.operands@,
                self.op.result_types@[0],
            ),
        )
    }

    fn get_num_operands(&self) -> (r: usize) {
        self.op.operands.len()
    }

    fn operand_bufferizes_to_memory_read(&self, opd: usize) -> (r: bool) {
        true
    }

    fn operand_bufferizes_to_memory_write(&self, opd: usize) -> (r: bool) {
        false
    }

    fn get_operand_result_aliases(&self, at: usize, results: &[usize]) -> (r: Vec<Alias>) {
        Vec::new()
    }

    fn get_dynamic_dimensions(&self, opd: usize) -> (r: Option<Vec<Value>>) {
        None
    }

    fn is_writable(&self, definer: DefiningEntity) -> (r: bool) {
        is_result(definer)
    }

    fn rewrite(&self, ctx: &mut Context) -> (r: Rewrite)
        ensures
            final(ctx).holds(
                element_wise_type(*final(ctx), self.op.operands@, self.op.result_types@[0]),
            ),
    {
        rewrite_element_wise(
            ElementWiseKind::Sub,
            &self.op.operands,
            &self.op.result_types,
            ctx,
        )
    }

    proof fn law_writes_alias(&self, at: usize, results: Seq<usize>) {
    }
}

impl BufferizableOpInterface for MulOp {
    open spec fn operands(&self) -> Seq<Value> {
        self.op.operands@
    }

    open spec fn num_results(&self) -> nat {
        1
    }

    open spec fn takes_tensor(&self, opd: int) -> bool {
        true
    }

    open spec fn reads(&self, opd: int) -> bool {
        true
    }

    open spec fn writes(&self, opd: int) -> bool {
        false
    }

    open spec fn aliases(&self, at: usize, results: Seq<usize>) -> Seq<Alias> {
        Seq::empty()
    }

    open spec fn dynamic_sizes(&self, opd: int) -> Option<Seq<Value>> {
        None
    }

    open spec fn writable(&self, definer: DefiningEntity) -> bool {
        definer is Op
    }

    open spec fn ready(&self, ctx: Context) -> bool {
        element_wise_ready(ctx, self.op.operands@, self.op.result_types@)
    }

    open spec fn rewritten(&self, ctx: Context) -> RewriteView {
        RewriteView::Replaced(
            element_wise_bufferized(
                ElementWiseKind::Mul,
                ctx,
                self.op.operands@,
                self.op.result_types@[0],
            ),
        )
    }

    fn get_num_operands(&self) -> (r: usize) {
        self.op.operands.len()
    }

    fn operand_bufferizes_to_memory_read(&self, opd: usize) -> (r: bool) {
        true
    }

    fn operand_bufferizes_to_memory_write(&self, opd: usize) -> (r: bool) {
        false
    }

    fn get_operand_result_aliases(&self, at: usize, results: &[usize]) -> (r: Vec<Alias>) {
        Vec::new()
    }

    fn get_dynamic_dimensions(&self, opd: usize) -> (r: Option<Vec<Value>>) {
        None
    }

    fn is_writable(&self, definer: DefiningEntity) -> (r: bool) {
        is_result(definer)
    }

    fn rewrite(&self, ctx: &mut Context) -> (r: Rewrite)
        ensures
            final(ctx).holds(
                element_wise_type(*final(ctx), self.op.operands@, self.op.result_types@[0]),
            ),
    {
        rewrite_element_wise(
            ElementWiseKind::Mul,
            &self.op.operands,
            &self.op.result_types,
            ctx,
        )
    }

    proof fn law_writes_alias(&self, at: usize, results: Seq<usize>) {
    }
}

impl BufferizableOpInterface for DivOp {
    open spec fn operands(&self) -> Seq<Value> {
        self.op.operands@
    }

    open spec fn num_results(&self) -> nat {
        1
    }

    open spec fn takes_tensor(&self, opd: int) -> bool {
        true
    }

    open spec fn reads(&self, opd: int) -> bool {
        true
    }

    open spec fn writes(&self, opd: int) -> bool {
        false
    }

    open spec fn aliases(&self, at: usize, results: Seq<usize>) -> Seq<Alias> {
        Seq::empty()
    }

    open spec fn dynamic_sizes(&self, opd: int) -> Option<Seq<Value>> {
        None
    }

    open spec fn writable(&self, definer: DefiningEntity) -> bool {
        definer is Op
    }

    open spec fn ready(&self, ctx: Context) -> bool {
        element_wise_ready(ctx, self.op.operands@, self.op.result_types@)
    }

    open spec fn rewritten(&self, ctx: Context) -> RewriteView {
        RewriteView::Replaced(
            element_wise_bufferized(
                ElementWiseKind::Div,
                ctx,
                self.op.operands@,
                self.op.result_types@[0],
            ),
        )
    }

    fn get_num_operands(&self) -> (r: usize) {
        self.op.operands.len()
    }

    fn operand_bufferizes_to_memory_read(&self, opd: usize) -> (r: bool) {
        true
    }

    fn operand_bufferizes_to_memory_write(&self, opd: usize) -> (r: bool) {
        false
    }

    fn get_operand_result_aliases(&self, at: usize, results: &[usize]) -> (r: Vec<Alias>) {
        Vec::new()
    }

    fn get_dynamic_dimensions(&self, opd: usize) -> (r: Option<Vec<Value>>) {
        None
    }

    fn is_writable(&self, definer: DefiningEntity) -> (r: bool) {
        is_result(definer)
    }

    fn rewrite(&self, ctx: &mut Context) -> (r: Rewrite)
        ensures
            final(ctx).holds(
                element_wise_type(*final(ctx), self.op.operands@, self.op.result_types@[0]),
            ),
    {
        rewrite_element_wise(
            ElementWiseKind::Div,
            &self.op.operands,
            &self.op.result_types,
            ctx,
        )
    }

    proof fn law_writes_alias(&self, at: usize, results: Seq<usize>) {
    }
}

// Matrix products
impl MatMulOp {
    /// Adds the product to the accumulator.
    pub open spec fn bufferized(&self) -> PlanView {
        PlanView {
            steps: seq![
                StepOf::MatMul {
                    accum: Ref::Value(self.op.operands@[2]),
                    lhs: Ref::Value(self.op.operands@[0]),
                    rhs: Ref::Value(self.op.operands@[1]),
                },
            ],
            replacement: ReplacementOf::Step(0),
        }
    }
}

impl BufferizableOpInterface for MatMulOp {
    open spec fn operands(&self) -> Seq<Value> {
        self.op.operands@
    }

    open spec fn num_results(&self) -> nat {
        1
    }

    open spec fn takes_tensor(&self, opd: int) -> bool {
        true
    }

    open spec fn reads(&self, opd: int) -> bool {
        true
    }

    open spec fn writes(&self, opd: int) -> bool {
        opd == 2
    }

    open spec fn aliases(&self, at: usize, results: Seq<usize>) -> Seq<Alias> {
        one_alias(at, 2, results, BufferRelation::Equivalent)
    }

    open spec fn dynamic_sizes(&self, opd: int) -> Option<Seq<Value>> {
        None
    }

    open spec fn writable(&self, definer: DefiningEntity) -> bool {
        definer is Op
    }

    open spec fn ready(&self, ctx: Context) -> bool {
        self.op.operands@.len() == 3
    }

    open spec fn rewritten(&self, ctx: Context) -> RewriteView {
        RewriteView::Replaced(self.bufferized())
    }

    fn get_num_operands(&self) -> (r: usize) {
        self.op.operands.len()
    }

    fn operand_bufferizes_to_memory_read(&self, opd: usize) -> (r: bool) {
        true
    }

    fn operand_bufferizes_to_memory_write(&self, opd: usize) -> (r: bool) {
        opd == 2
    }

    fn get_operand_result_aliases(&self, at: usize, results: &[usize]) -> (r: Vec<Alias>) {
        make_alias(at, 2, results, BufferRelation::Equivalent)
    }

    fn get_dynamic_dimensions(&self, opd: usize) -> (r: Option<Vec<Value>>) {
        None
    }

    fn is_writable(&self, definer: DefiningEntity) -> (r: bool) {
        is_result(definer)
    }

    fn rewrite(&self, ctx: &mut Context) -> (r: Rewrite) {
        let mut steps: Vec<Step> = Vec::new();
        plan::push(
            &mut steps,
            StepOf::MatMul {
                accum: Ref::Value(self.op.operands[2]),
                lhs: Ref::Value(self.op.operands[0]),
                rhs: Ref::Value(self.op.operands[1]),
            },
        );
        let plan = Plan { steps, replacement: ReplacementOf::Step(0) };
        assert(plan@.steps =~= self.bufferized().steps);
        Rewrite::Replaced(plan)
    }

    proof fn law_writes_alias(&self, at: usize, results: Seq<usize>) {
        assert(self.aliases(at, results)[0].operand == Use { op: at, index: 2 });
        assert(results.contains(results[0]));
    }
}

// Batches of matrix products
/// The size in each of the first `n` dimensions of a memref: a constant where the shape has
/// one, and what the descriptor says where it has none.
pub open spec fn size_steps(shape: Seq<Dimension>, memref: Ref, n: nat) -> Seq<StepView> {
    Seq::new(
        n,
        |i: int|
            match shape[i] {
                Dimension::Static(size) => StepOf::IndexConstant(size),
                Dimension::Dynamic => StepOf::UnpackSize { memref, dim: i as usize },
            },
    )
}

/// The size in a dimension, as a parameter of a slice. `step` gives the size.
pub open spec fn size_param(dim: Dimension, step: int) -> Param {
    match dim {
        Dimension::Static(size) => Param::Static(size),
        Dimension::Dynamic => Param::Dynamic(Ref::Outer(step as usize)),
    }
}

/// The references among two parameters.
pub open spec fn dynamic_pair(a: Param, b: Param) -> Seq<Ref> {
    match (a, b) {
        (Param::Dynamic(x), Param::Dynamic(y)) => seq![x, y],
        (Param::Dynamic(x), Param::Static(_)) => seq![x],
        (Param::Static(_), Param::Dynamic(y)) => seq![y],
        (Param::Static(_), Param::Static(_)) => Seq::empty(),
    }
}

/// Where the matrix of a batch begins.
pub open spec fn matrix_offsets(batch_rank: nat) -> Seq<Param> {
    Seq::new(
        batch_rank + 2,
        |d: int|
            if d < batch_rank {
                Param::Dynamic(Ref::Induction(d as usize))
            } else {
                Param::Static(0)
            },
    )
}

/// One matrix of a batch.
pub open spec fn matrix_sizes(batch_rank: nat, rows: Param, columns: Param) -> Seq<Param> {
    Seq::new(
        batch_rank + 2,
        |d: int|
            if d < batch_rank {
                Param::Static(1)
            } else if d == batch_rank {
                rows
            } else {
                columns
            },
    )
}

/// A step of one in every dimension.
pub open spec fn unit_steps(rank: nat) -> Seq<Param> {
    Seq::new(rank, |d: int| Param::Static(1))
}

/// The type of a matrix.
pub open spec fn matrix_type(element_type: TypeHandle, rows: Dimension, columns: Dimension) -> TypeView {
    TypeView::RankedMemref { element_type, shape: seq![rows, columns] }
}

/// Takes one matrix of a batch.
pub open spec fn matrix_view(memref: Ref, batch_rank: nat, rows: Param, columns: Param) -> BodyStepView {
    BodyStepOf::Subview {
        source: memref,
        offsets: matrix_offsets(batch_rank),
        sizes: matrix_sizes(batch_rank, rows, columns),
        steps: unit_steps(batch_rank + 2),
    }
}

/// The sizes of the matrices of a batch, as parameters.
pub struct MatrixParams {
    pub rows: Param,
    pub lhs_inner: Param,
    pub rhs_inner: Param,
    pub columns: Param,
}

/// The types of the matrices of a batch.
pub struct MatrixTypes {
    pub lhs: TypeHandle,
    pub rhs: TypeHandle,
    pub accum: TypeHandle,
}

/// Multiplies the matrices at one index of a batch.
pub open spec fn batch_body(
    lhs: Ref,
    rhs: Ref,
    accum: Ref,
    batch_rank: nat,
    params: MatrixParams,
    types: MatrixTypes,
) -> Seq<BodyStepView> {
    seq![
        matrix_view(lhs, batch_rank, params.rows, params.lhs_inner),
        matrix_view(rhs, batch_rank, params.rhs_inner, params.columns),
        matrix_view(accum, batch_rank, params.rows, params.columns),
        BodyStepOf::Reshape {
            source: Ref::Step(0),
            dynamic: dynamic_pair(params.rows, params.lhs_inner),
            ty: types.lhs,
        },
        BodyStepOf::Reshape {
            source: Ref::Step(1),
            dynamic: dynamic_pair(params.rhs_inner, params.columns),
            ty: types.rhs,
        },
        BodyStepOf::Reshape {
            source: Ref::Step(2),
            dynamic: dynamic_pair(params.rows, params.columns),
            ty: types.accum,
        },
        BodyStepOf::MatMul { accum: Ref::Step(5), lhs: Ref::Step(3), rhs: Ref::Step(4) },
    ]
}

/// Appends the steps that give the sizes of a memref.
fn push_sizes(steps: &mut Vec<Step>, shape: &Vec<Dimension>, memref: Ref)
    ensures
        plan::steps_view(final(steps)@) == plan::steps_view(old(steps)@) + size_steps(
            shape@,
            memref,
            shape@.len(),
        ),
        final(steps)@.len() == old(steps)@.len() + shape@.len(),
{
    let ghost before = plan::steps_view(steps@);
    let mut i: usize = 0;
    assert(before =~= before + size_steps(shape@, memref, 0));
    while i < shape.len()
        invariant
            i <= shape@.len(),
            plan::steps_view(steps@) == before + size_steps(shape@, memref, i as nat),
            steps@.len() == before.len() + i,
        decreases shape@.len() - i,
    {
        match shape[i] {
            Dimension::Dynamic => {
                plan::push(steps, StepOf::UnpackSize { memref, dim: i });
            },
            Dimension::Static(size) => {
                plan::push(steps, StepOf::IndexConstant(size));
            },
        }
        i += 1;
        assert(plan::steps_view(steps@) =~= before + size_steps(shape@, memref, i as nat));
    }
}

fn make_size_param(dim: Dimension, step: usize) -> (r: Param)
    ensures
        r == size_param(dim, step as int),
{
    match dim {
        Dimension::Static(size) => Param::Static(size),
        Dimension::Dynamic => Param::Dynamic(Ref::Outer(step)),
    }
}

fn make_dynamic_pair(a: Param, b: Param) -> (r: Vec<Ref>)
    ensures
        r@ == dynamic_pair(a, b),
{
    let mut refs: Vec<Ref> = Vec::new();
    if let Param::Dynamic(x) = a {
        refs.push(x);
    }
    if let Param::Dynamic(y) = b {
        refs.push(y);
    }
    assert(refs@ =~= dynamic_pair(a, b));
    refs
}

fn make_matrix_view(memref: Ref, batch_rank: usize, rows: Param, columns: Param) -> (r: BodyStep)
    requires
        batch_rank + 2 <= usize::MAX,
    ensures
        plan::body_step_view(r) == matrix_view(memref, batch_rank as nat, rows, columns),
{
    let mut offsets: Vec<Param> = Vec::new();
    let mut sizes: Vec<Param> = Vec::new();
    let mut unit: Vec<Param> = Vec::new();
    let mut d: usize = 0;
    while d < batch_rank
        invariant
            d <= batch_rank,
            batch_rank + 2 <= usize::MAX,
            offsets@ == matrix_offsets(batch_rank as nat).take(d as int),
            sizes@ == matrix_sizes(batch_rank as nat, rows, columns).take(d as int),
            unit@ == unit_steps((batch_rank + 2) as nat).take(d as int),
        decreases batch_rank - d,
    {
        offsets.push(Param::Dynamic(Ref::Induction(d)));
        sizes.push(Param::Static(1));
        unit.push(Param::Static(1));
        d += 1;
        assert(offsets@ =~= matrix_offsets(batch_rank as nat).take(d as int));
        assert(sizes@ =~= matrix_sizes(batch_rank as nat, rows, columns).take(d as int));
        assert(unit@ =~= unit_steps((batch_rank + 2) as nat).take(d as int));
    }
    offsets.push(Param::Static(0));
    offsets.push(Param::Static(0));
    sizes.push(rows);
    sizes.push(columns);
    unit.push(Param::Static(1));
    unit.push(Param::Static(1));
    assert(offsets@ =~= matrix_offsets(batch_rank as nat));
    assert(sizes@ =~= matrix_sizes(batch_rank as nat, rows, columns));
    assert(unit@ =~= unit_steps((batch_rank + 2) as nat));
    BodyStepOf::Subview { source: memref, offsets, sizes, steps: unit }
}

fn make_batch_body(
    lhs: Ref,
    rhs: Ref,
    accum: Ref,
    batch_rank: usize,
    params: &MatrixParams,
    types: &MatrixTypes,
) -> (r: Vec<BodyStep>)
    requires
        batch_rank + 2 <= usize::MAX,
    ensures
        plan::body_view(r@) == batch_body(lhs, rhs, accum, batch_rank as nat, *params, *types),
{
    let mut body: Vec<BodyStep> = Vec::new();
    let lhs_view: Ref = plan::push_body(
        &mut body,
        make_matrix_view(lhs, batch_rank, params.rows, params.lhs_inner),
    );
    let rhs_view: Ref = plan::push_body(
        &mut body,
        make_matrix_view(rhs, batch_rank, params.rhs_inner, params.columns),
    );
    let accum_view: Ref = plan::push_body(
        &mut body,
        make_matrix_view(accum, batch_rank, params.rows, params.columns),
    );
    let lhs_matrix: Ref = plan::push_body(
        &mut body,
        BodyStepOf::Reshape {
            source: lhs_view,
            dynamic: make_dynamic_pair(params.rows, params.lhs_inner),
            ty: types.lhs,
        },
    );
    let rhs_matrix: Ref = plan::push_body(
        &mut body,
        BodyStepOf::Reshape {
            source: rhs_view,
            dynamic: make_dynamic_pair(params.rhs_inner, params.columns),
            ty: types.rhs,
        },
    );
    let accum_matrix: Ref = plan::push_body(
        &mut body,
        BodyStepOf::Reshape {
            source: accum_view,
            dynamic: make_dynamic_pair(params.rows, params.columns),
            ty: types.accum,
        },
    );
    plan::push_body(
        &mut body,
        BodyStepOf::MatMul { accum: accum_matrix, lhs: lhs_matrix, rhs: rhs_matrix },
    );
    assert(plan::body_view(body@) =~= batch_body(
        lhs,
        rhs,
        accum,
        batch_rank as nat,
        *params,
        *types,
    ));
    body
}

impl BatchMatMulOp {
    /// The operands are memrefs of one rank, at least two.
    pub open spec fn operands_converted(&self, ctx: Context) -> bool {
        &&& self.op.operands@.len() == 3
        &&& ctx.has_values(self.op.operands@)
        &&& ctx.as_memref(self.op.operands@[0].ty) is Some
        &&& ctx.as_memref(self.op.operands@[1].ty) is Some
        &&& ctx.as_memref(self.op.operands@[2].ty) is Some
        &&& self.lhs_shape(ctx).len() >= 2
        &&& self.rhs_shape(ctx).len() == self.lhs_shape(ctx).len()
    }

    pub open spec fn lhs_shape(&self, ctx: Context) -> Seq<Dimension> {
        ctx.as_memref(self.op.operands@[0].ty)->Some_0.shape
    }

    pub open spec fn rhs_shape(&self, ctx: Context) -> Seq<Dimension> {
        ctx.as_memref(self.op.operands@[1].ty)->Some_0.shape
    }

    pub open spec fn matrix_params(&self, ctx: Context) -> MatrixParams {
        let lhs = self.lhs_shape(ctx);
        let rhs = self.rhs_shape(ctx);
        let rank = lhs.len() as int;
        MatrixParams {
            rows: size_param(lhs[rank - 2], rank - 2),
            lhs_inner: size_param(lhs[rank - 1], rank - 1),
            rhs_inner: size_param(rhs[rank - 2], 2 * rank - 2),
            columns: size_param(rhs[rank - 1], 2 * rank - 1),
        }
    }

    /// The inner dimension of both factors is static, or that of both is dynamic. Otherwise the
    /// type of the right matrix, which has the inner dimension of the left one, asks for another
    /// number of sizes than there are.
    pub open spec fn inner_alike(&self, ctx: Context) -> bool {
        let lhs = self.lhs_shape(ctx);
        let rhs = self.rhs_shape(ctx);
        let rank = lhs.len() as int;
        lhs[rank - 1] is Dynamic <==> rhs[rank - 2] is Dynamic
    }

    /// The types of the matrices. The inner dimension is that of the left factor.
    pub open spec fn matrix_views(&self, ctx: Context) -> (TypeView, TypeView, TypeView) {
        let element_type = ctx.as_memref(self.op.operands@[2].ty)->Some_0.element_type;
        let lhs = self.lhs_shape(ctx);
        let rhs = self.rhs_shape(ctx);
        let rank = lhs.len() as int;
        (
            matrix_type(element_type, lhs[rank - 2], lhs[rank - 1]),
            matrix_type(element_type, lhs[rank - 1], rhs[rank - 1]),
            matrix_type(element_type, lhs[rank - 2], rhs[rank - 1]),
        )
    }

    pub open spec fn matrix_types(&self, ctx: Context) -> MatrixTypes {
        let views = self.matrix_views(ctx);
        MatrixTypes {
            lhs: ctx.handle_of(views.0),
            rhs: ctx.handle_of(views.1),
            accum: ctx.handle_of(views.2),
        }
    }

    /// The context holds the types of the matrices.
    pub open spec fn has_matrix_types(&self, ctx: Context) -> bool {
        let views = self.matrix_views(ctx);
        ctx.holds(views.0) && ctx.holds(views.1) && ctx.holds(views.2)
    }

    /// The sizes of both factors.
    pub open spec fn size_steps(&self, ctx: Context) -> Seq<StepView> {
        let rank = self.lhs_shape(ctx).len();
        size_steps(self.lhs_shape(ctx), Ref::Value(self.op.operands@[0]), rank) + size_steps(
            self.rhs_shape(ctx),
            Ref::Value(self.op.operands@[1]),
            rank,
        )
    }

    /// The plan that replaces the operation.
    pub open spec fn bufferized(&self, ctx: Context) -> PlanView {
        let lhs = Ref::Value(self.op.operands@[0]);
        let rhs = Ref::Value(self.op.operands@[1]);
        let accum = Ref::Value(self.op.operands@[2]);
        let rank = self.lhs_shape(ctx).len();
        if rank == 2 {
            PlanView {
                steps: self.size_steps(ctx).push(StepOf::MatMul { accum, lhs, rhs }),
                replacement: ReplacementOf::Step(4),
            }
        } else {
            let batch_rank = (rank - 2) as nat;
            PlanView {
                steps: self.size_steps(ctx).push(StepOf::IndexConstant(0)).push(
                    StepOf::IndexConstant(1),
                ).push(
                    StepOf::Loop {
                        lower: Ref::Step((2 * rank) as usize),
                        upper: Seq::new(batch_rank, |i: int| Ref::Step(i as usize)),
                        step: Ref::Step((2 * rank + 1) as usize),
                        body: batch_body(
                            lhs,
                            rhs,
                            accum,
                            batch_rank,
                            self.matrix_params(ctx),
                            self.matrix_types(ctx),
                        ),
                    },
                ),
                replacement: ReplacementOf::Values(seq![accum]),
            }
        }
    }
}

impl BufferizableOpInterface for BatchMatMulOp {
    open spec fn operands(&self) -> Seq<Value> {
        self.op.operands@
    }

    open spec fn num_results(&self) -> nat {
        1
    }

    open spec fn takes_tensor(&self, opd: int) -> bool {
        true
    }

    open spec fn reads(&self, opd: int) -> bool {
        true
    }

    open spec fn writes(&self, opd: int) -> bool {
        opd == 2
    }

    open spec fn aliases(&self, at: usize, results: Seq<usize>) -> Seq<Alias> {
        one_alias(at, 2, results, BufferRelation::Equivalent)
    }

    open spec fn dynamic_sizes(&self, opd: int) -> Option<Seq<Value>> {
        None
    }

    open spec fn writable(&self, definer: DefiningEntity) -> bool {
        definer is Op
    }

    open spec fn ready(&self, ctx: Context) -> bool {
        self.operands_converted(ctx) && 2 * self.lhs_shape(ctx).len() + 3 <= usize::MAX
    }

    open spec fn rewritten(&self, ctx: Context) -> RewriteView {
        RewriteView::Replaced(self.bufferized(ctx))
    }

    fn get_num_operands(&self) -> (r: usize) {
        self.op.operands.len()
    }

    fn operand_bufferizes_to_memory_read(&self, opd: usize) -> (r: bool) {
        true
    }

    fn operand_bufferizes_to_memory_write(&self, opd: usize) -> (r: bool) {
        opd == 2
    }

    fn get_operand_result_aliases(&self, at: usize, results: &[usize]) -> (r: Vec<Alias>) {
        make_alias(at, 2, results, BufferRelation::Equivalent)
    }

    fn get_dynamic_dimensions(&self, opd: usize) -> (r: Option<Vec<Value>>) {
        None
    }

    fn is_writable(&self, definer: DefiningEntity) -> (r: bool) {
        is_result(definer)
    }

    /// Replaces the operation by a loop over all indices of the batch, which multiplies one
    /// pair of matrices at a time, and adds the product to a matrix of the accumulator. The
    /// accumulator takes the place of the result.
    fn rewrite(&self, ctx: &mut Context) -> (r: Rewrite)
        ensures
            self.lhs_shape(*old(ctx)).len() > 2 ==> self.has_matrix_types(*final(ctx)),
    {
        let ghost start = *ctx;
        let lhs_value: Value = self.op.operands[0];
        let rhs_value: Value = self.op.operands[1];
        let accum_value: Value = self.op.operands[2];
        assert(ctx.has_value(self.op.operands@[0]));
        assert(ctx.has_value(self.op.operands@[1]));
        assert(ctx.has_value(self.op.operands@[2]));
        let lhs = Ref::Value(lhs_value);
        let rhs = Ref::Value(rhs_value);
        let accum = Ref::Value(accum_value);
        let lhs_shape: Vec<Dimension> = type_interfaces::copy_shape(
            &ctx.ranked_memref(lhs_value.ty).unwrap().shape,
        );
        let rhs_shape: Vec<Dimension> = type_interfaces::copy_shape(
            &ctx.ranked_memref(rhs_value.ty).unwrap().shape,
        );
        let element_type: TypeHandle = ctx.ranked_memref(accum_value.ty).unwrap().element_type;
        let rank: usize = lhs_shape.len();
        let batch_rank: usize = rank - 2;
        let mut steps: Vec<Step> = Vec::new();
        push_sizes(&mut steps, &lhs_shape, lhs);
        push_sizes(&mut steps, &rhs_shape, rhs);
        assert(plan::steps_view(steps@) =~= self.size_steps(start));
        if batch_rank == 0 {
            plan::push(&mut steps, StepOf::MatMul { accum, lhs, rhs });
            let plan = Plan { steps, replacement: ReplacementOf::Step(2 * rank) };
            assert(plan@ =~= self.bufferized(start));
            return Rewrite::Replaced(plan);
        }
        let lower: Ref = plan::push(&mut steps, StepOf::IndexConstant(0));
        let step: Ref = plan::push(&mut steps, StepOf::IndexConstant(1));
        let mut upper: Vec<Ref> = Vec::new();
        let mut i: usize = 0;
        while i < batch_rank
            invariant
                i <= batch_rank,
                upper@ == Seq::new(i as nat, |k: int| Ref::Step(k as usize)),
            decreases batch_rank - i,
        {
            upper.push(Ref::Step(i));
            i += 1;
            assert(upper@ =~= Seq::new(i as nat, |k: int| Ref::Step(k as usize)));
        }
        let params = MatrixParams {
            rows: make_size_param(lhs_shape[rank - 2], rank - 2),
            lhs_inner: make_size_param(lhs_shape[rank - 1], rank - 1),
            rhs_inner: make_size_param(rhs_shape[rank - 2], 2 * rank - 2),
            columns: make_size_param(rhs_shape[rank - 1], 2 * rank - 1),
        };
        let lhs_ty: TypeHandle = RankedMemrefType::get(
            ctx,
            element_type,
            vec![lhs_shape[rank - 2], lhs_shape[rank - 1]],
        );
        let ghost ctx1 = *ctx;
        let rhs_ty: TypeHandle = RankedMemrefType::get(
            ctx,
            element_type,
            vec![lhs_shape[rank - 1], rhs_shape[rank - 1]],
        );
        let ghost ctx2 = *ctx;
        let accum_ty: TypeHandle = RankedMemrefType::get(
            ctx,
            element_type,
            vec![lhs_shape[rank - 2], rhs_shape[rank - 1]],
        );
        let types = MatrixTypes { lhs: lhs_ty, rhs: rhs_ty, accum: accum_ty };
        proof {
            assert(ctx.extends(start));
            assert(ctx@[lhs_value.ty.id as int] == start@[lhs_value.ty.id as int]);
            assert(ctx@[rhs_value.ty.id as int] == start@[rhs_value.ty.id as int]);
            assert(ctx@[accum_value.ty.id as int] == start@[accum_value.ty.id as int]);
            let views = self.matrix_views(start);
            assert(ctx1.get(lhs_ty) =~= views.0);
            assert(ctx2.get(rhs_ty) =~= views.1);
            assert(ctx.get(accum_ty) =~= views.2);
            assert(ctx@[lhs_ty.id as int] == ctx2@[lhs_ty.id as int]);
            assert(ctx2@[lhs_ty.id as int] == ctx1@[lhs_ty.id as int]);
            assert(ctx@[rhs_ty.id as int] == ctx2@[rhs_ty.id as int]);
            ir::lemma_handle_of(*ctx, lhs_ty);
            ir::lemma_handle_of(*ctx, rhs_ty);
            ir::lemma_handle_of(*ctx, accum_ty);
            assert(types == self.matrix_types(*ctx));
        }
        let body: Vec<BodyStep> = make_batch_body(lhs, rhs, accum, batch_rank, &params, &types);
        plan::push(&mut steps, StepOf::Loop { lower, upper, step, body });
        let plan = Plan { steps, replacement: ReplacementOf::Values(vec![accum]) };
        assert(plan@.steps =~= self.bufferized(*ctx).steps);
        assert(plan@ =~= self.bufferized(*ctx));
        Rewrite::Replaced(plan)
    }

    proof fn law_writes_alias(&self, at: usize, results: Seq<usize>) {
        assert(self.aliases(at, results)[0].operand == Use { op: at, index: 2 });
        assert(results.contains(results[0]));
    }
}

// Slices
/// The parameters of a slice, in a plan.
pub open spec fn plan_params(params: Seq<SliceParam>) -> Seq<Param> {
    params.map_values(
        |param: SliceParam|
            match param {
                SliceParam::Static(n) => Param::Static(n),
                SliceParam::Dynamic(value) => Param::Dynamic(Ref::Value(value)),
            },
    )
}

fn params_to_plan(params: &Vec<SliceParam>) -> (r: Vec<Param>)
    ensures
        r@ == plan_params(params@),
{
    let mut converted: Vec<Param> = Vec::new();
    let mut i: usize = 0;
    while i < params.len()
        invariant
            i <= params@.len(),
            converted@ == plan_params(params@).take(i as int),
        decreases params@.len() - i,
    {
        match params[i] {
            SliceParam::Static(n) => {
                converted.push(Param::Static(n));
            },
            SliceParam::Dynamic(value) => {
                converted.push(Param::Dynamic(Ref::Value(value)));
            },
        }
        i += 1;
        assert(converted@ =~= plan_params(params@).take(i as int));
    }
    assert(converted@ =~= plan_params(params@));
    converted
}

impl ExtractSliceOp {
    /// Makes a view of the source.
    pub open spec fn bufferized(&self) -> PlanView {
        PlanView {
            steps: seq![
                StepOf::Subview {
                    source: Ref::Value(self.op.operands@[0]),
                    offsets: plan_params(self.offsets()),
                    sizes: plan_params(self.sizes()),
                    steps: plan_params(self.steps()),
                },
            ],
            replacement: ReplacementOf::Step(0),
        }
    }
}

impl BufferizableOpInterface for ExtractSliceOp {
    open spec fn operands(&self) -> Seq<Value> {
        self.op.operands@
    }

    open spec fn num_results(&self) -> nat {
        1
    }

    open spec fn takes_tensor(&self, opd: int) -> bool {
        true
    }

    open spec fn reads(&self, opd: int) -> bool {
        opd == 0
    }

    open spec fn writes(&self, opd: int) -> bool {
        false
    }

    open spec fn aliases(&self, at: usize, results: Seq<usize>) -> Seq<Alias> {
        one_alias(at, 0, results, BufferRelation::Contains)
    }

    open spec fn dynamic_sizes(&self, opd: int) -> Option<Seq<Value>> {
        None
    }

    open spec fn writable(&self, definer: DefiningEntity) -> bool {
        definer is Op
    }

    open spec fn ready(&self, ctx: Context) -> bool {
        self.op.operands@.len() >= 1 && self.has_params()
    }

    open spec fn rewritten(&self, ctx: Context) -> RewriteView {
        RewriteView::Replaced(self.bufferized())
    }

    fn get_num_operands(&self) -> (r: usize) {
        self.op.operands.len()
    }

    fn operand_bufferizes_to_memory_read(&self, opd: usize) -> (r: bool) {
        opd == 0
    }

    fn operand_bufferizes_to_memory_write(&self, opd: usize) -> (r: bool) {
        false
    }

    fn get_operand_result_aliases(&self, at: usize, results: &[usize]) -> (r: Vec<Alias>) {
        make_alias(at, 0, results, BufferRelation::Contains)
    }

    fn get_dynamic_dimensions(&self, opd: usize) -> (r: Option<Vec<Value>>) {
        None
    }

    fn is_writable(&self, definer: DefiningEntity) -> (r: bool) {
        is_result(definer)
    }

    fn rewrite(&self, ctx: &mut Context) -> (r: Rewrite) {
        let mut steps: Vec<Step> = Vec::new();
        plan::push(
            &mut steps,
            StepOf::Subview {
                source: Ref::Value(self.source()),
                offsets: params_to_plan(&self.slice_offsets()),
                sizes: params_to_plan(&self.slice_sizes()),
                steps: params_to_plan(&self.slice_steps()),
            },
        );
        let plan = Plan { steps, replacement: ReplacementOf::Step(0) };
        assert(plan@.steps =~= self.bufferized().steps);
        Rewrite::Replaced(plan)
    }

    proof fn law_writes_alias(&self, at: usize, results: Seq<usize>) {
        assert(results.contains(results[0]));
    }
}

impl InsertSliceOp {
    /// Makes a view of the destination and copies the source to it. The destination takes the
    /// place of the result.
    pub open spec fn bufferized(&self) -> PlanView {
        let destination = Ref::Value(self.op.operands@[1]);
        PlanView {
            steps: seq![
                StepOf::Subview {
                    source: destination,
                    offsets: plan_params(self.offsets()),
                    sizes: plan_params(self.sizes()),
                    steps: plan_params(self.steps()),
                },
                StepOf::Copy {
                    destination: Ref::Step(0),
                    source: Ref::Value(self.op.operands@[0]),
                },
            ],
            replacement: ReplacementOf::Values(seq![destination]),
        }
    }
}

impl BufferizableOpInterface for InsertSliceOp {
    open spec fn operands(&self) -> Seq<Value> {
        self.op.operands@
    }

    open spec fn num_results(&self) -> nat {
        1
    }

    open spec fn takes_tensor(&self, opd: int) -> bool {
        true
    }

    open spec fn reads(&self, opd: int) -> bool {
        true
    }

    open spec fn writes(&self, opd: int) -> bool {
        opd == 1
    }

    open spec fn aliases(&self, at: usize, results: Seq<usize>) -> Seq<Alias> {
        one_alias(at, 1, results, BufferRelation::Equivalent)
    }

    open spec fn dynamic_sizes(&self, opd: int) -> Option<Seq<Value>> {
        None
    }

    open spec fn writable(&self, definer: DefiningEntity) -> bool {
        definer is Op
    }

    open spec fn ready(&self, ctx: Context) -> bool {
        self.op.operands@.len() >= 2 && self.has_params()
    }

    open spec fn rewritten(&self, ctx: Context) -> RewriteView {
        RewriteView::Replaced(self.bufferized())
    }

    fn get_num_operands(&self) -> (r: usize) {
        self.op.operands.len()
    }

    fn operand_bufferizes_to_memory_read(&self, opd: usize) -> (r: bool) {
        true
    }

    fn operand_bufferizes_to_memory_write(&self, opd: usize) -> (r: bool) {
        opd == 1
    }

    fn get_operand_result_aliases(&self, at: usize, results: &[usize]) -> (r: Vec<Alias>) {
        make_alias(at, 1, results, BufferRelation::Equivalent)
    }

    fn get_dynamic_dimensions(&self, opd: usize) -> (r: Option<Vec<Value>>) {
        None
    }

    fn is_writable(&self, definer: DefiningEntity) -> (r: bool) {
        is_result(definer)
    }

    fn rewrite(&self, ctx: &mut Context) -> (r: Rewrite) {
        let destination = Ref::Value(self.destination());
        let mut steps: Vec<Step> = Vec::new();
        let view: Ref = plan::push(
            &mut steps,
            StepOf::Subview {
                source: destination,
                offsets: params_to_plan(&self.slice_offsets()),
                sizes: params_to_plan(&self.slice_sizes()),
                steps: params_to_plan(&self.slice_steps()),
            },
        );
        plan::push(
            &mut steps,
            StepOf::Copy { destination: view, source: Ref::Value(self.source()) },
        );
        let plan = Plan { steps, replacement: ReplacementOf::Values(vec![destination]) };
        assert(plan@.steps =~= self.bufferized().steps);
        assert(plan@ =~= self.bufferized());
        Rewrite::Replaced(plan)
    }

    proof fn law_writes_alias(&self, at: usize, results: Seq<usize>) {
        assert(self.aliases(at, results)[0].operand == Use { op: at, index: 1 });
        assert(results.contains(results[0]));
    }
}

// Shapes
impl ReshapeOp {
    /// Gives the memref another shape.
    pub open spec fn bufferized(&self, ctx: Context) -> PlanView {
        PlanView {
            steps: seq![
                StepOf::Reshape {
                    source: Ref::Value(self.op.operands@[0]),
                    dynamic: plan::value_refs(self.op.operands@.skip(1)),
                    ty: stored_handle(ctx, self.op.result_types@[0]),
                },
            ],
            replacement: ReplacementOf::Step(0),
        }
    }
}

impl BufferizableOpInterface for ReshapeOp {
    open spec fn operands(&self) -> Seq<Value> {
        self.op.operands@
    }

    open spec fn num_results(&self) -> nat {
        1
    }

    open spec fn takes_tensor(&self, opd: int) -> bool {
        true
    }

    open spec fn reads(&self, opd: int) -> bool {
        opd == 0
    }

    open spec fn writes(&self, opd: int) -> bool {
        false
    }

    open spec fn aliases(&self, at: usize, results: Seq<usize>) -> Seq<Alias> {
        one_alias(at, 0, results, BufferRelation::Equivalent)
    }

    open spec fn dynamic_sizes(&self, opd: int) -> Option<Seq<Value>> {
        None
    }

    open spec fn writable(&self, definer: DefiningEntity) -> bool {
        definer is Op
    }

    open spec fn ready(&self, ctx: Context) -> bool {
        self.wf(ctx)
    }

    open spec fn rewritten(&self, ctx: Context) -> RewriteView {
        RewriteView::Replaced(self.bufferized(ctx))
    }

    fn get_num_operands(&self) -> (r: usize) {
        self.op.operands.len()
    }

    fn operand_bufferizes_to_memory_read(&self, opd: usize) -> (r: bool) {
        opd == 0
    }

    fn operand_bufferizes_to_memory_write(&self, opd: usize) -> (r: bool) {
        false
    }

    fn get_operand_result_aliases(&self, at: usize, results: &[usize]) -> (r: Vec<Alias>) {
        make_alias(at, 0, results, BufferRelation::Equivalent)
    }

    fn get_dynamic_dimensions(&self, opd: usize) -> (r: Option<Vec<Value>>) {
        None
    }

    fn is_writable(&self, definer: DefiningEntity) -> (r: bool) {
        is_result(definer)
    }

    fn rewrite(&self, ctx: &mut Context) -> (r: Rewrite)
        ensures
            final(ctx).holds(memref::stored_as(final(ctx).get(self.op.result_types@[0]))),
    {
        assert(ctx.has(self.op.result_types@[0]));
        let ty: TypeHandle = tensor_type_to_memref_type(self.op.result_types[0], ctx);
        let dynamic: Vec<Value> = ReshapeOp::get_dynamic_dimensions(self);
        let mut steps: Vec<Step> = Vec::new();
        plan::push(
            &mut steps,
            StepOf::Reshape {
                source: Ref::Value(self.get_source()),
                dynamic: plan::refs_to_values(&dynamic),
                ty,
            },
        );
        let plan = Plan { steps, replacement: ReplacementOf::Step(0) };
        assert(plan@.steps =~= self.bufferized(*ctx).steps);
        Rewrite::Replaced(plan)
    }

    proof fn law_writes_alias(&self, at: usize, results: Seq<usize>) {
        assert(results.contains(results[0]));
    }
}

// Operations of other dialects
/// Each initial value of a loop shares its buffer with the result that it becomes.
pub open spec fn carried_aliases(at: usize, num_bounds: usize, results: Seq<usize>) -> Seq<Alias> {
    Seq::new(
        results.len(),
        |i: int|
            Alias {
                operand: Use { op: at, index: (num_bounds + i) as usize },
                result: results[i],
                kind: AliasKind::Must,
                relation: BufferRelation::Equivalent,
            },
    )
}

fn make_carried_aliases(at: usize, num_bounds: usize, results: &[usize]) -> (r: Vec<Alias>)
    requires
        num_bounds + results@.len() <= usize::MAX,
    ensures
        r@ == carried_aliases(at, num_bounds, results@),
{
    let mut aliases: Vec<Alias> = Vec::new();
    let mut i: usize = 0;
    while i < results.len()
        invariant
            i <= results@.len(),
            num_bounds + results@.len() <= usize::MAX,
            aliases@ == carried_aliases(at, num_bounds, results@).take(i as int),
        decreases results@.len() - i,
    {
        aliases.push(
            Alias {
                operand: Use { op: at, index: num_bounds + i },
                result: results[i],
                kind: AliasKind::Must,
                relation: BufferRelation::Equivalent,
            },
        );
        i += 1;
        assert(aliases@ =~= carried_aliases(at, num_bounds, results@).take(i as int));
    }
    assert(aliases@ =~= carried_aliases(at, num_bounds, results@));
    aliases
}

/// The types of values.
pub open spec fn types_of(values: Seq<Value>) -> Seq<TypeHandle> {
    values.map_values(|value: Value| value.ty)
}

fn make_types_of(values: &Vec<Value>) -> (r: Vec<TypeHandle>)
    ensures
        r@ == types_of(values@),
{
    let mut types: Vec<TypeHandle> = Vec::new();
    let mut i: usize = 0;
    while i < values.len()
        invariant
            i <= values@.len(),
            types@ == types_of(values@).take(i as int),
        decreases values@.len() - i,
    {
        types.push(values[i].ty);
        i += 1;
        assert(types@ =~= types_of(values@).take(i as int));
    }
    assert(types@ =~= types_of(values@));
    types
}

impl BufferizableOpInterface for ForOp {
    open spec fn operands(&self) -> Seq<Value> {
        self.op.operands@
    }

    open spec fn num_results(&self) -> nat {
        if self.num_bounds <= self.op.operands@.len() {
            (self.op.operands@.len() - self.num_bounds) as nat
        } else {
            0
        }
    }

    open spec fn takes_tensor(&self, opd: int) -> bool {
        opd >= self.num_bounds
    }

    open spec fn reads(&self, opd: int) -> bool {
        true
    }

    open spec fn writes(&self, opd: int) -> bool {
        true
    }

    open spec fn aliases(&self, at: usize, results: Seq<usize>) -> Seq<Alias> {
        carried_aliases(at, self.num_bounds, results)
    }

    open spec fn dynamic_sizes(&self, opd: int) -> Option<Seq<Value>> {
        None
    }

    open spec fn writable(&self, definer: DefiningEntity) -> bool {
        true
    }

    open spec fn ready(&self, ctx: Context) -> bool {
        self.wf(ctx)
    }

    open spec fn rewritten(&self, ctx: Context) -> RewriteView {
        RewriteView::Retyped {
            arguments: types_of(self.op.operands@.skip(self.num_bounds as int)),
            results: types_of(self.op.operands@.skip(self.num_bounds as int)),
        }
    }

    fn get_num_operands(&self) -> (r: usize) {
        self.op.operands.len()
    }

    fn operand_bufferizes_to_memory_read(&self, opd: usize) -> (r: bool) {
        true
    }

    fn operand_bufferizes_to_memory_write(&self, opd: usize) -> (r: bool) {
        true
    }

    fn get_operand_result_aliases(&self, at: usize, results: &[usize]) -> (r: Vec<Alias>) {
        let n: usize = self.op.operands.len();
        assert(n == self.op.operands@.len());
        make_carried_aliases(at, self.num_bounds, results)
    }

    fn get_dynamic_dimensions(&self, opd: usize) -> (r: Option<Vec<Value>>) {
        None
    }

    fn is_writable(&self, definer: DefiningEntity) -> (r: bool) {
        true
    }

    fn rewrite(&self, ctx: &mut Context) -> (r: Rewrite) {
        let initial: Vec<Value> = ir::values_from(&self.op.operands, self.num_bounds);
        Rewrite::Retyped { arguments: make_types_of(&initial), results: make_types_of(&initial) }
    }

    proof fn law_writes_alias(&self, at: usize, results: Seq<usize>) {
        let aliases = self.aliases(at, results);
        assert forall|opd: int|
            0 <= opd < self.operands().len() && self.takes_tensor(opd) && self.writes(
                opd,
            ) implies exists|j: int|
            0 <= j < aliases.len() && (#[trigger] aliases[j]).operand == (Use {
                op: at,
                index: opd as usize,
            }) by {
            assert(aliases[opd - self.num_bounds].operand == Use { op: at, index: opd as usize });
        }
        assert forall|j: int| 0 <= j < aliases.len() implies (#[trigger] aliases[j]).operand.op
            == at && results.contains(aliases[j].result) by {
            assert(results.contains(results[j]));
        }
    }
}

impl BufferizableOpInterface for PointerLoadOp {
    open spec fn operands(&self) -> Seq<Value> {
        self.op.operands@
    }

    open spec fn num_results(&self) -> nat {
        1
    }

    open spec fn takes_tensor(&self, opd: int) -> bool {
        true
    }

    open spec fn reads(&self, opd: int) -> bool {
        false
    }

    open spec fn writes(&self, opd: int) -> bool {
        false
    }

    open spec fn aliases(&self, at: usize, results: Seq<usize>) -> Seq<Alias> {
        Seq::empty()
    }

    open spec fn dynamic_sizes(&self, opd: int) -> Option<Seq<Value>> {
        None
    }

    open spec fn writable(&self, definer: DefiningEntity) -> bool {
        definer is Op
    }

    open spec fn ready(&self, ctx: Context) -> bool {
        self.wf(ctx)
    }

    open spec fn rewritten(&self, ctx: Context) -> RewriteView {
        RewriteView::Retyped {
            arguments: Seq::empty(),
            results: seq![stored_handle(ctx, self.op.result_types@[0])],
        }
    }

    fn get_num_operands(&self) -> (r: usize) {
        self.op.operands.len()
    }

    fn operand_bufferizes_to_memory_read(&self, opd: usize) -> (r: bool) {
        false
    }

    fn operand_bufferizes_to_memory_write(&self, opd: usize) -> (r: bool) {
        false
    }

    fn get_operand_result_aliases(&self, at: usize, results: &[usize]) -> (r: Vec<Alias>) {
        Vec::new()
    }

    fn get_dynamic_dimensions(&self, opd: usize) -> (r: Option<Vec<Value>>) {
        None
    }

    fn is_writable(&self, definer: DefiningEntity) -> (r: bool) {
        is_result(definer)
    }

    fn rewrite(&self, ctx: &mut Context) -> (r: Rewrite) {
        assert(ctx.has(self.op.result_types@[0]));
        let ty: TypeHandle = tensor_type_to_memref_type(self.op.result_types[0], ctx);
        let r = Rewrite::Retyped { arguments: Vec::new(), results: vec![ty] };
        assert(r@ =~= self.rewritten(*ctx));
        r
    }

    proof fn law_writes_alias(&self, at: usize, results: Seq<usize>) {
    }
}

/// The signature of a function whose tensors are memrefs.
pub open spec fn stored_signature(ctx: Context, signature: TypeView) -> TypeView {
    TypeView::Function {
        result: stored_handle(ctx, signature->Function_result),
        arguments: stored_handles(ctx, signature->Function_arguments),
    }
}

/// Replaces every tensor in the signature of a function and among the arguments of its first
/// block by a memref.
pub fn lower_func_op_to_llvm(func_op: &FuncOp, ctx: &mut Context) -> (r: FuncOp)
    requires
        old(ctx).wf(),
        func_op.wf(*old(ctx)),
    ensures
        final(ctx).wf(),
        final(ctx).extends(*old(ctx)),
        r.wf(*final(ctx)),
        final(ctx).get(r.ty) == stored_signature(*final(ctx), final(ctx).get(func_op.ty)),
        r.ty == final(ctx).handle_of(
            stored_signature(*final(ctx), final(ctx).get(func_op.ty)),
        ),
        r.arguments@ == stored_handles(*final(ctx), func_op.arguments@),
        holds_stored(*final(ctx), func_op.arguments@),
{
    let ghost start = *ctx;
    let (old_result, old_arguments): (TypeHandle, Vec<TypeHandle>) = match ctx.deref(func_op.ty) {
        TypeObj::Function { result, arguments } => (*result, ir::copy_types(arguments)),
        _ => {
            assert(false);
            (func_op.ty, Vec::new())
        },
    };
    let result: TypeHandle = tensor_type_to_memref_type(old_result, ctx);
    let ghost ctx1 = *ctx;
    proof {
        assert forall|i: int| 0 <= i < old_arguments@.len() implies ctx1.has(
            #[trigger] old_arguments@[i],
        ) by {
            assert(start.has(old_arguments@[i]));
        }
    }
    let arguments: Vec<TypeHandle> = convert_types(&old_arguments, ctx);
    let ghost ctx2 = *ctx;
    let ghost new_arguments = arguments@;
    let ty: TypeHandle = ctx.intern(TypeObj::Function { result, arguments });
    let ghost ctx3 = *ctx;
    proof {
        assert forall|i: int| 0 <= i < func_op.arguments@.len() implies ctx3.has(
            #[trigger] func_op.arguments@[i],
        ) by {
            assert(start.has(func_op.arguments@[i]));
        }
    }
    let block_arguments: Vec<TypeHandle> = convert_types(&func_op.arguments, ctx);
    proof {
        let signature = start.get(func_op.ty);
        assert(ctx@[func_op.ty.id as int] == signature) by {
            assert(ctx1@[func_op.ty.id as int] == start@[func_op.ty.id as int]);
            assert(ctx2@[func_op.ty.id as int] == ctx1@[func_op.ty.id as int]);
            assert(ctx3@[func_op.ty.id as int] == ctx2@[func_op.ty.id as int]);
        }
        assert(ctx2.extends(ctx1));
        assert(ctx3.extends(ctx2));
        assert(ctx.extends(ctx3));
        assert(ctx.extends(ctx2)) by {
            assert forall|i: int| 0 <= i < ctx2@.len() implies #[trigger] ctx@[i] == ctx2@[i] by {
                assert(ctx3@[i] == ctx2@[i]);
            }
        }
        assert(ctx.extends(ctx1)) by {
            assert forall|i: int| 0 <= i < ctx1@.len() implies #[trigger] ctx@[i] == ctx1@[i] by {
                assert(ctx2@[i] == ctx1@[i]);
            }
        }
        assert(ctx@[old_result.id as int] == ctx1@[old_result.id as int]);
        ir::lemma_extends(*ctx, ctx1, memref::stored_as(ctx1.get(old_result)));
        assert(result == stored_handle(*ctx, old_result));
        assert(ctx2.has_types(old_arguments@)) by {
            assert forall|i: int| 0 <= i < old_arguments@.len() implies ctx2.has(
                #[trigger] old_arguments@[i],
            ) by {
                assert(ctx1.has(old_arguments@[i]));
            }
        }
        lemma_stored_handles(*ctx, ctx2, old_arguments@);
        assert(ctx@[ty.id as int] == ctx3@[ty.id as int]);
        assert(ctx.get(ty) =~= stored_signature(*ctx, signature));
        ir::lemma_handle_of(*ctx, ty);
        assert(ctx1.has(result)) by {
            assert(ctx1.holds(memref::stored_as(ctx1.get(old_result))));
        }
        assert forall|i: int| 0 <= i < new_arguments.len() implies ctx.has(
            #[trigger] new_arguments[i],
        ) by {
            assert(ctx2.has(new_arguments[i]));
        }
    }
    FuncOp { ty, arguments: block_arguments }
}

impl BufferizableOpInterface for FuncOp {
    open spec fn operands(&self) -> Seq<Value> {
        Seq::empty()
    }

    open spec fn num_results(&self) -> nat {
        0
    }

    open spec fn takes_tensor(&self, opd: int) -> bool {
        true
    }

    open spec fn reads(&self, opd: int) -> bool {
        false
    }

    open spec fn writes(&self, opd: int) -> bool {
        false
    }

    open spec fn aliases(&self, at: usize, results: Seq<usize>) -> Seq<Alias> {
        Seq::empty()
    }

    open spec fn dynamic_sizes(&self, opd: int) -> Option<Seq<Value>> {
        None
    }

    open spec fn writable(&self, definer: DefiningEntity) -> bool {
        true
    }

    open spec fn ready(&self, ctx: Context) -> bool {
        self.wf(ctx)
    }

    open spec fn rewritten(&self, ctx: Context) -> RewriteView {
        RewriteView::Signature {
            ty: ctx.handle_of(stored_signature(ctx, ctx.get(self.ty))),
            arguments: stored_handles(ctx, self.arguments@),
        }
    }

    fn get_num_operands(&self) -> (r: usize) {
        0
    }

    fn operand_bufferizes_to_memory_read(&self, opd: usize) -> (r: bool) {
        false
    }

    fn operand_bufferizes_to_memory_write(&self, opd: usize) -> (r: bool) {
        false
    }

    fn get_operand_result_aliases(&self, at: usize, results: &[usize]) -> (r: Vec<Alias>) {
        Vec::new()
    }

    fn get_dynamic_dimensions(&self, opd: usize) -> (r: Option<Vec<Value>>) {
        None
    }

    fn is_writable(&self, definer: DefiningEntity) -> (r: bool) {
        true
    }

    fn rewrite(&self, ctx: &mut Context) -> (r: Rewrite) {
        Rewrite::Signature(lower_func_op_to_llvm(self, ctx))
    }

    proof fn law_writes_alias(&self, at: usize, results: Seq<usize>) {
    }
}

} // verus!
