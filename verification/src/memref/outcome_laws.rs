//! What takes the place of the results of operations on memrefs, and what they call.

use crate::ir::{Context, TypeHandle, Value};
use crate::memref::conversions;
use crate::memref::conversions::DescriptorTypes;
use crate::memref::lowering_laws;
use crate::memref::ops::{
    AddOp, AllocOp, CopyOp, DeallocOp, DimOp, DivOp, GenerateOp, LoadOp, MulOp, ReshapeOp, SubOp, SubviewOp,
};
use crate::memref::slices::SliceParam;
use crate::outcomes;
use crate::outcomes::CallView;
use crate::plan;
use crate::plan::{Callee, ElementWiseKind, Ref, ReplacementOf, StepOf, StepView};
use crate::row_major;
use crate::semantics;
use crate::semantics::{Desc, Machine, Memory, Runtime};
use vstd::prelude::*;

verus! {

proof fn lemma_alloc_bytes(op: AllocOp, m: Machine, memory: Memory)
    requires
        op.wf(m.ctx),
        lowering_laws::are_ints(m, op.op.operands@),
    ensures
        ({
            let memref = m.ctx.as_memref(op.op.result_types@[0])->Some_0;
            let sizes = semantics::filled_sizes(
                memref.shape,
                lowering_laws::ints_of(m, op.op.operands@),
            );
            m.results(memory, op.lowered(m.ctx).steps)[2] == Runtime::Int(
                (m.type_size)(memref.element_type) * row_major::product(sizes),
            )
        }),
{
    let steps = op.lowered(m.ctx).steps;
    let memref = m.ctx.as_memref(op.op.result_types@[0])->Some_0;
    let dynamic = lowering_laws::ints_of(m, op.op.operands@);
    let sizes = semantics::filled_sizes(memref.shape, dynamic);
    let element_size = (m.type_size)(memref.element_type);
    let (r0, m0) = m.run(memory, steps, 0);
    assert(m.ints(r0, plan::value_refs(op.op.operands@)) =~= dynamic);
    m.lemma_run_step(memory, steps, 1);
    assert(m.step(r0, m0, steps[0]).0->Desc_0.sizes == sizes) by {
        reveal(Machine::step);
    }
    let (r1, m1) = m.run(memory, steps, 1);
    m.lemma_run_step(memory, steps, 2);
    assert(m.step(r1, m1, steps[1]).0 == Runtime::Int(element_size)) by {
        reveal(Machine::step);
    }
    let (r2, m2) = m.run(memory, steps, 2);
    m.lemma_run_step(memory, steps, 3);
    assert(m.step(r2, m2, steps[2]).0 == Runtime::Int(
        element_size * row_major::product(sizes),
    )) by {
        reveal(Machine::step);
    }
    m.lemma_run_step(memory, steps, 4);
    m.lemma_run_step(memory, steps, 5);
    m.lemma_run_step(memory, steps, 6);
}

/// An allocation calls `malloc` once, for as many bytes as the elements need, and is replaced by
/// the contiguous memref at the address that comes back.
pub proof fn law_alloc_outcome(op: AllocOp, m: Machine, memory: Memory)
    requires
        op.wf(m.ctx),
        lowering_laws::are_ints(m, op.op.operands@),
        m.ctx.as_memref(op.op.result_types@[0])->Some_0.shape.len() <= usize::MAX,
    ensures
        ({
            let memref = m.ctx.as_memref(op.op.result_types@[0])->Some_0;
            let sizes = semantics::filled_sizes(
                memref.shape,
                lowering_laws::ints_of(m, op.op.operands@),
            );
            let bytes = (m.type_size)(memref.element_type) * row_major::product(sizes);
            let plan = op.lowered(m.ctx);
            let values = outcomes::replacements(m, memory, plan);
            &&& outcomes::calls(
                m,
                m.results(memory, plan.steps),
                plan.steps,
                plan.steps.len(),
            ) == seq![CallView { callee: Callee::Malloc, arguments: seq![Runtime::Int(bytes)] }]
            &&& values.len() == 1
            &&& values[0] matches Runtime::Desc(d) && d.sizes == sizes && d.contiguous()
                && d.offset == 0 && d.allocated == d.aligned && exists|at: nat|
                d.aligned == #[trigger] (m.malloc)(at, bytes)
        }),
{
    let plan = op.lowered(m.ctx);
    let steps = plan.steps;
    let memref = m.ctx.as_memref(op.op.result_types@[0])->Some_0;
    let dynamic = lowering_laws::ints_of(m, op.op.operands@);
    let sizes = semantics::filled_sizes(memref.shape, dynamic);
    let bytes = (m.type_size)(memref.element_type) * row_major::product(sizes);
    let all = m.results(memory, steps);
    lowering_laws::law_alloc_runs(op, m, memory);
    lemma_alloc_bytes(op, m, memory);
    reveal_with_fuel(outcomes::calls, 7);
    let arguments = steps[3]->Call_arguments;
    assert(Seq::new(arguments.len(), |i: int| m.get(all, arguments[i])) =~= seq![
        Runtime::Int(bytes),
    ]);
    assert(outcomes::calls(m, all, steps, steps.len()) =~= seq![
        CallView { callee: Callee::Malloc, arguments: seq![Runtime::Int(bytes)] },
    ]);
}

/// A deallocation calls `free` once, on the address that was allocated for the memref, and leaves
/// memory alone.
pub proof fn law_dealloc_outcome(op: DeallocOp, m: Machine, memory: Memory)
    requires
        op.wf(),
        (m.values)(op.op.operands@[0]) is Desc,
    ensures
        ({
            let steps = op.lowered().steps;
            let address = (m.values)(op.op.operands@[0])->Desc_0.allocated;
            &&& outcomes::calls(m, m.results(memory, steps), steps, steps.len()) == seq![
                CallView { callee: Callee::Free, arguments: seq![Runtime::Ptr(address)] },
            ]
            &&& m.memory_after(memory, steps) == memory
        }),
{
    let steps = op.lowered().steps;
    let address = (m.values)(op.op.operands@[0])->Desc_0.allocated;
    m.lemma_run_step(memory, steps, 1);
    m.lemma_run_step(memory, steps, 2);
    reveal(Machine::step);
    reveal_with_fuel(outcomes::calls, 3);
    let all = m.results(memory, steps);
    let arguments = steps[1]->Call_arguments;
    assert(all[0] == Runtime::Ptr(address));
    assert(Seq::new(arguments.len(), |i: int| m.get(all, arguments[i])) =~= seq![
        Runtime::Ptr(address),
    ]);
    assert(outcomes::calls(m, all, steps, 2) =~= seq![
        CallView { callee: Callee::Free, arguments: seq![Runtime::Ptr(address)] },
    ]);
}

/// A load is replaced by the element at the indices.
pub proof fn law_load_outcome(op: LoadOp, m: Machine, memory: Memory)
    requires
        op.op.operands@.len() >= 1,
        (m.values)(op.op.operands@[0]) is Desc,
        lowering_laws::are_ints(m, op.op.operands@.skip(1)),
    ensures
        outcomes::replacements(m, memory, op.lowered()) == seq![
            Runtime::Element(
                memory[(m.values)(op.op.operands@[0])->Desc_0.address(
                    lowering_laws::ints_of(m, op.op.operands@.skip(1)),
                )],
            ),
        ],
{
    lowering_laws::law_load_runs(op, m, memory);
}

/// A query of a dimension is replaced by the size in it, and leaves memory alone.
pub proof fn law_dim_outcome(op: DimOp, m: Machine, memory: Memory, constant: Option<usize>)
    requires
        op.op.operands@.len() == 2,
        (m.values)(op.op.operands@[0]) is Desc,
        (m.values)(op.op.operands@[1]) is Int,
        constant matches Some(dim) ==> (m.values)(op.op.operands@[1])->Int_0 == dim,
    ensures
        outcomes::replacements(m, memory, op.lowered(constant)) == seq![
            Runtime::Int(
                (m.values)(
                    op.op.operands@[0],
                )->Desc_0.sizes[(m.values)(op.op.operands@[1])->Int_0 as int],
            ),
        ],
        m.memory_after(memory, op.lowered(constant).steps) == memory,
{
    lowering_laws::law_dim_runs(op, m, memory, constant);
    m.lemma_run_step(memory, op.lowered(constant).steps, 1);
    reveal(Machine::step);
    assert(outcomes::replacements(m, memory, op.lowered(constant)) =~= seq![
        m.results(memory, op.lowered(constant).steps)[0],
    ]);
}

/// A reshape is replaced by a memref in the same storage, with the sizes of the result type and
/// the row-major layout.
pub proof fn law_reshape_outcome(op: ReshapeOp, m: Machine, memory: Memory)
    requires
        op.wf(m.ctx),
        (m.values)(op.op.operands@[0]) is Desc,
        lowering_laws::are_ints(m, op.op.operands@.skip(1)),
        m.ctx.as_memref(op.op.result_types@[0])->Some_0.shape.len() <= usize::MAX,
    ensures
        ({
            let source = (m.values)(op.op.operands@[0])->Desc_0;
            let values = outcomes::replacements(m, memory, op.lowered(m.ctx));
            &&& values.len() == 1
            &&& values[0] matches Runtime::Desc(d) && d.contiguous() && d.allocated
                == source.allocated && d.aligned == source.aligned && d.offset == source.offset
                && d.sizes == semantics::filled_sizes(
                m.ctx.as_memref(op.op.result_types@[0])->Some_0.shape,
                lowering_laws::ints_of(m, op.op.operands@.skip(1)),
            )
        }),
{
    lowering_laws::law_reshape_runs(op, m, memory);
}

proof fn lemma_materialized_len(params: Seq<SliceParam>, steps: Seq<StepView>, n: nat)
    ensures
        conversions::materialized(params, steps, n).0.len() <= steps.len() + n,
    decreases n,
{
    if n > 0 {
        lemma_materialized_len(params, steps, (n - 1) as nat);
    }
}

proof fn lemma_cast_all_len(
    ctx: Context,
    refs: Seq<Ref>,
    from: Seq<TypeHandle>,
    to: Seq<TypeHandle>,
    steps: Seq<StepView>,
    n: nat,
)
    ensures
        conversions::cast_all(ctx, refs, from, to, steps, n).0.len() <= steps.len() + n,
    decreases n,
{
    if n > 0 {
        lemma_cast_all_len(ctx, refs, from, to, steps, (n - 1) as nat);
    }
}

proof fn lemma_offset_sum_len(offsets: Seq<Ref>, steps: Seq<StepView>, n: nat)
    ensures
        conversions::offset_sum(offsets, steps, n).0.len() == steps.len() + 2 * n,
    decreases n,
{
    if n > 0 {
        lemma_offset_sum_len(offsets, steps, (n - 1) as nat);
    }
}

proof fn lemma_scaled_strides_len(factors: Seq<Ref>, steps: Seq<StepView>, n: nat)
    ensures
        conversions::scaled_strides(factors, steps, n).0.len() == steps.len() + n,
    decreases n,
{
    if n > 0 {
        lemma_scaled_strides_len(factors, steps, (n - 1) as nat);
    }
}

/// The last step gives what takes the place of the result.
proof fn lemma_subview_steps(op: SubviewOp, m: Machine, types: DescriptorTypes)
    requires
        op.wf(m.ctx),
        op.verdict(m.ctx) is Ok,
        2 + 9 * op.offsets().len() <= usize::MAX,
    ensures
        ({
            let plan = op.lowered(m.ctx, types);
            &&& plan.steps.len() > 0
            &&& plan.replacement == ReplacementOf::<Seq<Ref>>::Values(
                seq![Ref::Step((plan.steps.len() - 1) as usize)],
            )
            &&& plan.steps.len() - 1 <= usize::MAX
        }),
{
    let ctx = m.ctx;
    let source = op.op.operands@[0];
    let rank = ctx.as_memref(source.ty)->Some_0.shape.len();
    let offsets = op.offsets();
    let sizes = op.sizes();
    let factors = op.steps();
    let s0: Seq<StepView> = seq![StepOf::UnpackDescriptor(Ref::Value(source))];
    let (s1, offset_refs) = conversions::materialized(offsets, s0, offsets.len());
    lemma_materialized_len(offsets, s0, offsets.len());
    let index_types = conversions::param_types(offsets, types.index);
    let offset_types = conversions::repeated(types.offset, offsets.len());
    let (s2, offset_values) = conversions::cast_all(
        ctx,
        offset_refs,
        index_types,
        offset_types,
        s1,
        offsets.len(),
    );
    lemma_cast_all_len(ctx, offset_refs, index_types, offset_types, s1, offsets.len());
    let (s3, size_refs) = conversions::materialized(sizes, s2, sizes.len());
    lemma_materialized_len(sizes, s2, sizes.len());
    let from_sizes = conversions::param_types(sizes, types.index);
    let to_sizes = conversions::repeated(types.size(), sizes.len());
    let (s4, size_values) = conversions::cast_all(
        ctx,
        size_refs,
        from_sizes,
        to_sizes,
        s3,
        sizes.len(),
    );
    lemma_cast_all_len(ctx, size_refs, from_sizes, to_sizes, s3, sizes.len());
    let (s5, step_refs) = conversions::materialized(factors, s4, factors.len());
    lemma_materialized_len(factors, s4, factors.len());
    let n = conversions::smaller(factors.len(), rank);
    let from_steps = conversions::param_types(factors, types.index);
    let (s6, step_values) = conversions::cast_all(
        ctx,
        step_refs,
        from_steps,
        types.strides@,
        s5,
        n,
    );
    lemma_cast_all_len(ctx, step_refs, from_steps, types.strides@, s5, n);
    let (s7, offset) = conversions::offset_sum(
        offset_values,
        s6,
        conversions::smaller(offsets.len(), rank),
    );
    lemma_offset_sum_len(offset_values, s6, conversions::smaller(offsets.len(), rank));
    lemma_scaled_strides_len(step_values, s7, n);
}

/// A view is replaced by a memref whose element at an index is the element of the source at the
/// offset plus the index times the step.
pub proof fn law_subview_outcome(
    op: SubviewOp,
    m: Machine,
    memory: Memory,
    types: DescriptorTypes,
    idxs: Seq<nat>,
)
    requires
        op.wf(m.ctx),
        op.verdict(m.ctx) is Ok,
        op.has_params(),
        lowering_laws::is_memref(
            m,
            op.op.operands@[0],
            m.ctx.as_memref(op.op.operands@[0].ty)->Some_0.shape.len(),
        ),
        lowering_laws::params_are_ints(m, op.offsets()),
        lowering_laws::params_are_ints(m, op.sizes()),
        lowering_laws::params_are_ints(m, op.steps()),
        2 + 9 * op.offsets().len() <= usize::MAX,
        idxs.len() == m.ctx.as_memref(op.op.operands@[0].ty)->Some_0.shape.len(),
    ensures
        ({
            let source = (m.values)(op.op.operands@[0])->Desc_0;
            let values = outcomes::replacements(m, memory, op.lowered(m.ctx, types));
            &&& values.len() == 1
            &&& values[0] matches Runtime::Desc(view) && view.sizes == lowering_laws::param_values(
                m,
                op.sizes(),
            ) && view.allocated == source.allocated && view.address(idxs) == source.address(
                semantics::slice_indices(
                    lowering_laws::param_values(m, op.offsets()),
                    lowering_laws::param_values(m, op.steps()),
                    idxs,
                ),
            )
        }),
{
    let plan = op.lowered(m.ctx, types);
    lowering_laws::law_subview_runs(op, m, memory, types);
    lemma_subview_steps(op, m, types);
    let n = plan.steps.len();
    m.lemma_run_step(memory, plan.steps, n);
    assert(outcomes::replacements(m, memory, plan) =~= seq![m.results(memory, plan.steps).last()]);
    semantics::law_subview_elements(
        (m.values)(op.op.operands@[0])->Desc_0,
        lowering_laws::param_values(m, op.offsets()),
        lowering_laws::param_values(m, op.sizes()),
        lowering_laws::param_values(m, op.steps()),
        idxs,
    );
}

/// The operands of an element-wise operation are memrefs of one size with elements that it can work
/// on, and the result lies apart from the others, but for elements at the same index.
pub open spec fn element_wise_runs_on(
    m: Machine,
    kind: ElementWiseKind,
    element_ty: TypeHandle,
    operands: Seq<Value>,
    res: Desc,
    lhs: Desc,
    rhs: Desc,
) -> bool {
    let rank = m.ctx.as_memref(operands[0].ty)->Some_0.shape.len();
    &&& conversions::element_wise_wf(m.ctx, operands)
    &&& rank <= usize::MAX
    &&& lowering_laws::is_memref(m, operands[0], rank)
    &&& (m.values)(operands[0]) == Runtime::Desc(res)
    &&& (m.values)(operands[1]) == Runtime::Desc(lhs)
    &&& (m.values)(operands[2]) == Runtime::Desc(rhs)
    &&& lowering_laws::has_numbers(m, kind, element_ty)
    &&& res.injective()
    &&& lhs.sizes == res.sizes
    &&& rhs.sizes == res.sizes
    &&& semantics::keeps_apart(res, lhs)
    &&& semantics::keeps_apart(res, rhs)
}

proof fn lemma_element_wise_outcome(
    kind: ElementWiseKind,
    m: Machine,
    memory: Memory,
    element_ty: TypeHandle,
    operands: Seq<Value>,
    res: Desc,
    lhs: Desc,
    rhs: Desc,
)
    requires
        element_wise_runs_on(m, kind, element_ty, operands, res, lhs, rhs),
    ensures
        ({
            let after = m.memory_after(
                memory,
                conversions::element_wise_lowered(kind, m.ctx, element_ty, operands).steps,
            );
            &&& forall|lin: nat|
                lin < res.count() ==> after[#[trigger] res.nth(lin)] == m.element_result(
                    kind,
                    memory[lhs.nth(lin)],
                    memory[rhs.nth(lin)],
                )
            &&& forall|address: int|
                res.avoids(address) ==> #[trigger] after[address] == memory[address]
        }),
{
    lowering_laws::law_element_wise_runs(kind, m, memory, element_ty, operands);
    semantics::law_element_wise(m.element_wise(), kind, res, lhs, rhs, memory);
}

/// After `add`, each element of the result is the sum of the elements of the operands at the same
/// index, and the rest of memory is as it was.
pub proof fn law_add_outcome(
    op: AddOp,
    m: Machine,
    memory: Memory,
    element_ty: TypeHandle,
    res: Desc,
    lhs: Desc,
    rhs: Desc,
)
    requires
        element_wise_runs_on(
            m,
            ElementWiseKind::Add,
            element_ty,
            op.op.operands@,
            res,
            lhs,
            rhs,
        ),
    ensures
        ({
            let after = m.memory_after(memory, op.lowered(m.ctx, element_ty).steps);
            &&& forall|lin: nat|
                lin < res.count() ==> after[#[trigger] res.nth(lin)] == m.element_result(
                    ElementWiseKind::Add,
                    memory[lhs.nth(lin)],
                    memory[rhs.nth(lin)],
                )
            &&& forall|address: int|
                res.avoids(address) ==> #[trigger] after[address] == memory[address]
        }),
{
    lemma_element_wise_outcome(
        ElementWiseKind::Add,
        m,
        memory,
        element_ty,
        op.op.operands@,
        res,
        lhs,
        rhs,
    );
}

/// After `sub`, each element of the result is the difference of the elements of the operands at the same
/// index, and the rest of memory is as it was.
pub proof fn law_sub_outcome(
    op: SubOp,
    m: Machine,
    memory: Memory,
    element_ty: TypeHandle,
    res: Desc,
    lhs: Desc,
    rhs: Desc,
)
    requires
        element_wise_runs_on(
            m,
            ElementWiseKind::Sub,
            element_ty,
            op.op.operands@,
            res,
            lhs,
            rhs,
        ),
    ensures
        ({
            let after = m.memory_after(memory, op.lowered(m.ctx, element_ty).steps);
            &&& forall|lin: nat|
                lin < res.count() ==> after[#[trigger] res.nth(lin)] == m.element_result(
                    ElementWiseKind::Sub,
                    memory[lhs.nth(lin)],
                    memory[rhs.nth(lin)],
                )
            &&& forall|address: int|
                res.avoids(address) ==> #[trigger] after[address] == memory[address]
        }),
{
    lemma_element_wise_outcome(
        ElementWiseKind::Sub,
        m,
        memory,
        element_ty,
        op.op.operands@,
        res,
        lhs,
        rhs,
    );
}

/// After `mul`, each element of the result is the product of the elements of the operands at the same
/// index, and the rest of memory is as it was.
pub proof fn law_mul_outcome(
    op: MulOp,
    m: Machine,
    memory: Memory,
    element_ty: TypeHandle,
    res: Desc,
    lhs: Desc,
    rhs: Desc,
)
    requires
        element_wise_runs_on(
            m,
            ElementWiseKind::Mul,
            element_ty,
            op.op.operands@,
            res,
            lhs,
            rhs,
        ),
    ensures
        ({
            let after = m.memory_after(memory, op.lowered(m.ctx, element_ty).steps);
            &&& forall|lin: nat|
                lin < res.count() ==> after[#[trigger] res.nth(lin)] == m.element_result(
                    ElementWiseKind::Mul,
                    memory[lhs.nth(lin)],
                    memory[rhs.nth(lin)],
                )
            &&& forall|address: int|
                res.avoids(address) ==> #[trigger] after[address] == memory[address]
        }),
{
    lemma_element_wise_outcome(
        ElementWiseKind::Mul,
        m,
        memory,
        element_ty,
        op.op.operands@,
        res,
        lhs,
        rhs,
    );
}

/// After `div`, each element of the result is the quotient of the elements of the operands at the same
/// index, and the rest of memory is as it was.
pub proof fn law_div_outcome(
    op: DivOp,
    m: Machine,
    memory: Memory,
    element_ty: TypeHandle,
    res: Desc,
    lhs: Desc,
    rhs: Desc,
)
    requires
        element_wise_runs_on(
            m,
            ElementWiseKind::Div,
            element_ty,
            op.op.operands@,
            res,
            lhs,
            rhs,
        ),
    ensures
        ({
            let after = m.memory_after(memory, op.lowered(m.ctx, element_ty).steps);
            &&& forall|lin: nat|
                lin < res.count() ==> after[#[trigger] res.nth(lin)] == m.element_result(
                    ElementWiseKind::Div,
                    memory[lhs.nth(lin)],
                    memory[rhs.nth(lin)],
                )
            &&& forall|address: int|
                res.avoids(address) ==> #[trigger] after[address] == memory[address]
        }),
{
    lemma_element_wise_outcome(
        ElementWiseKind::Div,
        m,
        memory,
        element_ty,
        op.op.operands@,
        res,
        lhs,
        rhs,
    );
}

/// After a copy, the destination holds the elements of the source, and the rest of memory is as it
/// was.
pub proof fn law_copy_outcome(op: CopyOp, m: Machine, memory: Memory, element_ty: TypeHandle)
    requires
        op.wf(m.ctx),
        lowering_laws::is_memref(
            m,
            op.op.operands@[0],
            m.ctx.as_memref(op.op.operands@[0].ty)->Some_0.shape.len(),
        ),
        (m.values)(op.op.operands@[1]) is Desc,
        m.ctx.as_memref(op.op.operands@[0].ty)->Some_0.shape.len() <= usize::MAX,
        ({
            let destination = (m.values)(op.op.operands@[0])->Desc_0;
            let source = (m.values)(op.op.operands@[1])->Desc_0;
            &&& destination.injective()
            &&& source.sizes == destination.sizes
            &&& semantics::keeps_apart(destination, source)
        }),
    ensures
        ({
            let destination = (m.values)(op.op.operands@[0])->Desc_0;
            let source = (m.values)(op.op.operands@[1])->Desc_0;
            let after = m.memory_after(memory, op.lowered(m.ctx, element_ty).steps);
            &&& forall|lin: nat|
                lin < destination.count() ==> after[#[trigger] destination.nth(lin)]
                    == memory[source.nth(lin)]
            &&& forall|address: int|
                destination.avoids(address) ==> #[trigger] after[address] == memory[address]
        }),
{
    let destination = (m.values)(op.op.operands@[0])->Desc_0;
    let source = (m.values)(op.op.operands@[1])->Desc_0;
    lowering_laws::law_copy_runs(op, m, memory, element_ty);
    semantics::law_copy(destination, source, memory);
}

/// After a memref is generated, its element at each index is what the region yields for it, and
/// the rest of memory is as it was.
pub proof fn law_generate_outcome(op: GenerateOp, m: Machine, memory: Memory)
    requires
        op.wf(m.ctx),
        lowering_laws::is_memref(
            m,
            op.op.operands@[0],
            m.ctx.as_memref(op.op.operands@[0].ty)->Some_0.shape.len(),
        ),
        m.ctx.as_memref(op.op.operands@[0].ty)->Some_0.shape.len() <= usize::MAX,
        (m.values)(op.op.operands@[0])->Desc_0.injective(),
    ensures
        ({
            let memref = (m.values)(op.op.operands@[0])->Desc_0;
            let after = m.memory_after(memory, op.lowered(m.ctx).steps);
            &&& forall|lin: nat|
                lin < memref.count() ==> after[#[trigger] memref.nth(lin)] == (m.region)(
                    row_major::delinearize(memref.sizes, lin),
                )
            &&& forall|address: int|
                memref.avoids(address) ==> #[trigger] after[address] == memory[address]
        }),
{
    lowering_laws::law_generate_runs(op, m, memory);
    semantics::law_generate(m.region, (m.values)(op.op.operands@[0])->Desc_0, memory);
}

} // verus!
