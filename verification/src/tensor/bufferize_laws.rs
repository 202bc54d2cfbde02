//! What the plans of the tensor dialect do when they run.

use crate::ir::{Context, TypeHandle, Value};
use crate::memref;
use crate::memref::lowering_laws;
use crate::memref::slices::SliceParam;
use crate::memref::type_interfaces::Dimension;
use crate::plan;
use crate::plan::{ElementWiseKind, Param, Ref, StepOf, StepView};
use crate::row_major;
use crate::semantics;
use crate::semantics::{Desc, Machine, Memory, Runtime};
use crate::tensor::bufferize;
use crate::tensor::conversions;
use crate::tensor::ops::{
    BatchMatMulOp, ExtractOp, ExtractSliceOp, GenerateOp, InsertSliceOp, MatMulOp, ReshapeOp,
};
use vstd::arithmetic::mul::*;
use vstd::prelude::*;

verus! {

/// The sizes are those of the shape where it has any.
pub open spec fn fits(shape: Seq<Dimension>, sizes: Seq<nat>) -> bool {
    &&& sizes.len() == shape.len()
    &&& forall|i: int|
        0 <= i < shape.len() ==> (#[trigger] shape[i] matches Dimension::Static(size)
            ==> sizes[i] == size)
}

/// The memref that an allocation by step number `at` gives.
pub open spec fn allocated(m: Machine, at: nat, ty: TypeHandle, sizes: Seq<nat>) -> Desc {
    let address = (m.malloc)(
        at,
        (m.type_size)(m.ctx.as_memref(ty)->Some_0.element_type) * row_major::product(sizes),
    );
    Desc {
        allocated: address,
        aligned: address,
        offset: 0,
        sizes,
        strides: semantics::row_major_strides(sizes),
    }
}

/// The sizes in the dynamic dimensions of a shape.
pub open spec fn dynamic_sizes(shape: Seq<Dimension>, sizes: Seq<nat>) -> Seq<nat> {
    conversions::dynamic_dims(shape).map_values(|dim: int| sizes[dim])
}

proof fn lemma_dynamic_dims(shape: Seq<Dimension>)
    ensures
        conversions::dynamic_dims(shape).len() <= shape.len(),
        forall|i: int|
            0 <= i < conversions::dynamic_dims(shape).len() ==> 0
                <= #[trigger] conversions::dynamic_dims(shape)[i] < shape.len(),
    decreases shape.len(),
{
    if shape.len() > 0 {
        lemma_dynamic_dims(shape.drop_last());
    }
}

/// A shape and the sizes in its dynamic dimensions give all sizes.
proof fn lemma_filled_fits(shape: Seq<Dimension>, sizes: Seq<nat>)
    requires
        fits(shape, sizes),
    ensures
        semantics::filled_sizes(shape, dynamic_sizes(shape, sizes)) == sizes,
    decreases shape.len(),
{
    if shape.len() > 0 {
        let init = shape.drop_last();
        let init_sizes = sizes.drop_last();
        assert(fits(init, init_sizes)) by {
            assert forall|i: int| 0 <= i < init.len() implies (#[trigger] init[i] matches
                Dimension::Static(size) ==> init_sizes[i] == size) by {
                assert(shape[i] == init[i]);
            }
        }
        lemma_filled_fits(init, init_sizes);
        lemma_dynamic_dims(init);
        let dynamic = dynamic_sizes(shape, sizes);
        let init_dynamic = dynamic_sizes(init, init_sizes);
        assert(shape[shape.len() - 1] == shape.last());
        if shape.last() is Dynamic {
            assert(dynamic =~= init_dynamic.push(sizes.last()));
            assert(dynamic.drop_last() =~= init_dynamic);
        } else {
            assert(dynamic =~= init_dynamic);
        }
        assert(init_sizes.push(sizes.last()) =~= sizes);
    } else {
        assert(sizes =~= Seq::<nat>::empty());
    }
}

/// What is allocated lies apart from a memref.
proof fn lemma_disjoint_keeps_apart(d: Desc, other: Desc)
    requires
        d.disjoint(other),
        d.sizes == other.sizes,
    ensures
        semantics::keeps_apart(d, other),
{
    assert forall|a: nat, b: nat| a < d.count() && b < d.count() && a != b implies #[trigger] d.nth(
        a,
    ) != #[trigger] other.nth(b) by {
        assert(other.avoids(d.nth(a)));
    }
}

// Tensors from indices
/// Running a bufferized `generate` gives a new memref with the sizes of the tensor, whose
/// element at each index is what the region yields for it, and leaves the rest of memory as it
/// is.
pub proof fn law_generate_runs(op: GenerateOp, m: Machine, memory: Memory)
    requires
        op.wf(m.ctx),
        m.ctx.holds(memref::stored_as(m.ctx.get(op.op.result_types@[0]))),
        lowering_laws::are_ints(m, op.op.operands@),
    ensures
        ({
            let steps = op.bufferized(m.ctx).steps;
            let after = m.memory_after(memory, steps);
            let res = allocated(
                m,
                0,
                conversions::stored_handle(m.ctx, op.op.result_types@[0]),
                semantics::filled_sizes(
                    m.ctx.as_tensor(op.op.result_types@[0])->Some_0.shape,
                    lowering_laws::ints_of(m, op.op.operands@),
                ),
            );
            &&& m.results(memory, steps)[0] == Runtime::Desc(res)
            &&& forall|lin: nat|
                lin < res.count() ==> after[#[trigger] res.nth(lin)] == (m.region)(
                    row_major::delinearize(res.sizes, lin),
                )
            &&& forall|address: int|
                res.avoids(address) ==> #[trigger] after[address] == memory[address]
        }),
{
    let steps = op.bufferized(m.ctx).steps;
    let ty = conversions::stored_handle(m.ctx, op.op.result_types@[0]);
    let dynamic = lowering_laws::ints_of(m, op.op.operands@);
    let shape = m.ctx.as_tensor(op.op.result_types@[0])->Some_0.shape;
    let res = allocated(m, 0, ty, semantics::filled_sizes(shape, dynamic));
    let r0 = m.run(memory, steps, 0).0;
    m.lemma_run_step(memory, steps, 1);
    assert(m.ints(r0, plan::value_refs(op.op.operands@)) =~= dynamic);
    assert(m.step(r0, memory, steps[0]) == (Runtime::Desc(res), memory)) by {
        reveal(Machine::step);
    }
    let r1 = m.run(memory, steps, 1).0;
    m.lemma_run_step(memory, steps, 2);
    assert(m.step(r1, memory, steps[1]).1 == semantics::generated(m.region, res, memory)) by {
        reveal(Machine::step);
    }
    semantics::law_contiguous_is_injective(res);
    semantics::law_generate(m.region, res, memory);
}

// Elements
/// Running a bufferized `extract` gives the element at the indices, and leaves memory as it
/// is.
pub proof fn law_extract_runs(op: ExtractOp, m: Machine, memory: Memory)
    requires
        op.op.operands@.len() >= 1,
        op.op.result_types@.len() == 1,
        (m.values)(op.op.operands@[0]) is Desc,
        lowering_laws::are_ints(m, op.op.operands@.skip(1)),
    ensures
        ({
            let steps = op.bufferized().steps;
            let source = (m.values)(op.op.operands@[0])->Desc_0;
            let indices = lowering_laws::ints_of(m, op.op.operands@.skip(1));
            &&& m.results(memory, steps)[0] == Runtime::Element(memory[source.address(indices)])
            &&& m.memory_after(memory, steps) == memory
        }),
{
    let steps = op.bufferized().steps;
    let r0 = m.run(memory, steps, 0).0;
    m.lemma_run_step(memory, steps, 1);
    assert(m.ints(r0, plan::value_refs(op.op.operands@.skip(1))) =~= lowering_laws::ints_of(
        m,
        op.op.operands@.skip(1),
    ));
    reveal(Machine::step);
}

// Element-wise operations
/// The first steps ask a memref for its sizes in some dimensions.
proof fn lemma_unpack_steps(
    m: Machine,
    memory: Memory,
    steps: Seq<StepView>,
    value: Value,
    dims: Seq<int>,
    n: nat,
)
    requires
        (m.values)(value) is Desc,
        n <= dims.len() <= steps.len(),
        steps.take(dims.len() as int) == conversions::unpack_steps(Ref::Value(value), dims),
        forall|i: int| 0 <= i < dims.len() ==> 0 <= #[trigger] dims[i] <= usize::MAX,
    ensures
        ({
            let (results, after) = m.run(memory, steps, n);
            &&& after == memory
            &&& results.len() == n
            &&& forall|i: int|
                0 <= i < n ==> #[trigger] results[i] == Runtime::Int(
                    (m.values)(value)->Desc_0.sizes[dims[i]],
                )
        }),
    decreases n,
{
    if n > 0 {
        let last = (n - 1) as nat;
        lemma_unpack_steps(m, memory, steps, value, dims, last);
        m.lemma_run_step(memory, steps, n);
        let results = m.run(memory, steps, last).0;
        assert(steps[n - 1] == steps.take(dims.len() as int)[n - 1]);
        assert(0 <= dims[n - 1] <= usize::MAX);
        assert(m.step(results, memory, steps[n - 1]) == (
            Runtime::Int((m.values)(value)->Desc_0.sizes[dims[n - 1]]),
            memory,
        )) by {
            reveal(Machine::step);
        }
    }
}

/// The results of the steps of a bufferized element-wise operation, and the memory after them.
pub proof fn lemma_element_wise_plan(
    kind: ElementWiseKind,
    operands: Seq<Value>,
    result_types: Seq<TypeHandle>,
    m: Machine,
    memory: Memory,
    lhs: Desc,
    rhs: Desc,
)
    requires
        conversions::element_wise_ready(m.ctx, operands, result_types),
        m.ctx.holds(conversions::element_wise_type(m.ctx, operands, result_types[0])),
        (m.values)(operands[0]) == Runtime::Desc(lhs),
        (m.values)(operands[1]) == Runtime::Desc(rhs),
        fits(m.ctx.as_memref(operands[0].ty)->Some_0.shape, lhs.sizes),
        fits(m.ctx.as_memref(operands[1].ty)->Some_0.shape, rhs.sizes),
        rhs.sizes == lhs.sizes,
        lhs.sizes.len() <= usize::MAX,
    ensures
        ({
            let plan = conversions::element_wise_bufferized(
                kind,
                m.ctx,
                operands,
                result_types[0],
            );
            let ty = m.ctx.handle_of(
                conversions::element_wise_type(m.ctx, operands, result_types[0]),
            );
            let n = conversions::dynamic_dims(conversions::element_wise_shape(m.ctx, operands)).len();
            let res = allocated(m, n, ty, lhs.sizes);
            &&& n <= usize::MAX
            &&& plan.steps.len() == n + 2
            &&& m.results(memory, plan.steps)[n as int] == Runtime::Desc(res)
            &&& m.memory_after(memory, plan.steps) == semantics::combined(
                m.element_wise(),
                kind,
                res,
                lhs,
                rhs,
                memory,
            )
        }),
{
    let plan = conversions::element_wise_bufferized(kind, m.ctx, operands, result_types[0]);
    let steps = plan.steps;
    let ty = m.ctx.handle_of(conversions::element_wise_type(m.ctx, operands, result_types[0]));
    let shape = conversions::element_wise_shape(m.ctx, operands);
    let dims = conversions::dynamic_dims(shape);
    let n = dims.len();
    let res = allocated(m, n, ty, lhs.sizes);
    lemma_dynamic_dims(shape);
    assert(fits(shape, lhs.sizes)) by {
        let a = m.ctx.as_memref(operands[0].ty)->Some_0.shape;
        let b = m.ctx.as_memref(operands[1].ty)->Some_0.shape;
        assert forall|i: int| 0 <= i < shape.len() implies (#[trigger] shape[i] matches
            Dimension::Static(size) ==> lhs.sizes[i] == size) by {
            assert(a[i] matches Dimension::Static(size) ==> lhs.sizes[i] == size);
            assert(b[i] matches Dimension::Static(size) ==> rhs.sizes[i] == size);
        }
    }
    lemma_filled_fits(shape, lhs.sizes);
    assert(steps.take(n as int) =~= conversions::unpack_steps(Ref::Value(operands[0]), dims));
    lemma_unpack_steps(m, memory, steps, operands[0], dims, n);
    let sizes = m.run(memory, steps, n).0;
    m.lemma_run_step(memory, steps, n + 1);
    assert(m.ints(sizes, conversions::first_steps(n)) =~= dynamic_sizes(shape, lhs.sizes));
    assert(m.shape_of(ty) == shape);
    assert(m.step(sizes, memory, steps[n as int]) == (Runtime::Desc(res), memory)) by {
        reveal(Machine::step);
    }
    let with_res = m.run(memory, steps, n + 1).0;
    assert(with_res[n as int] == Runtime::Desc(res));
    m.lemma_run_step(memory, steps, n + 2);
    assert(m.step(with_res, memory, steps[(n + 1) as int]).1 == semantics::combined(
        m.element_wise(),
        kind,
        res,
        lhs,
        rhs,
        memory,
    )) by {
        reveal(Machine::step);
    }
}

/// Running a bufferized element-wise operation gives a new memref with the sizes of the
/// operands, each element of which is computed from those of the operands at the same index,
/// and leaves the rest of memory as it is.
pub proof fn law_element_wise_runs(
    kind: ElementWiseKind,
    operands: Seq<Value>,
    result_types: Seq<TypeHandle>,
    m: Machine,
    memory: Memory,
    lhs: Desc,
    rhs: Desc,
)
    requires
        conversions::element_wise_ready(m.ctx, operands, result_types),
        m.ctx.holds(conversions::element_wise_type(m.ctx, operands, result_types[0])),
        (m.values)(operands[0]) == Runtime::Desc(lhs),
        (m.values)(operands[1]) == Runtime::Desc(rhs),
        fits(m.ctx.as_memref(operands[0].ty)->Some_0.shape, lhs.sizes),
        fits(m.ctx.as_memref(operands[1].ty)->Some_0.shape, rhs.sizes),
        rhs.sizes == lhs.sizes,
        lhs.sizes.len() <= usize::MAX,
        ({
            let ty = m.ctx.handle_of(
                conversions::element_wise_type(m.ctx, operands, result_types[0]),
            );
            let n = conversions::dynamic_dims(conversions::element_wise_shape(m.ctx, operands)).len();
            let res = allocated(m, n, ty, lhs.sizes);
            res.disjoint(lhs) && res.disjoint(rhs)
        }),
    ensures
        ({
            let plan = conversions::element_wise_bufferized(
                kind,
                m.ctx,
                operands,
                result_types[0],
            );
            let ty = m.ctx.handle_of(
                conversions::element_wise_type(m.ctx, operands, result_types[0]),
            );
            let n = conversions::dynamic_dims(conversions::element_wise_shape(m.ctx, operands)).len();
            let res = allocated(m, n, ty, lhs.sizes);
            let after = m.memory_after(memory, plan.steps);
            &&& m.results(memory, plan.steps)[plan.replacement->Step_0 as int] == Runtime::Desc(res)
            &&& forall|lin: nat|
                lin < res.count() ==> after[#[trigger] res.nth(lin)] == (m.element_wise())(
                    kind,
                    memory[lhs.nth(lin)],
                    memory[rhs.nth(lin)],
                )
            &&& forall|address: int|
                res.avoids(address) ==> #[trigger] after[address] == memory[address]
        }),
{
    let ty = m.ctx.handle_of(conversions::element_wise_type(m.ctx, operands, result_types[0]));
    let n = conversions::dynamic_dims(conversions::element_wise_shape(m.ctx, operands)).len();
    let res = allocated(m, n, ty, lhs.sizes);
    lemma_element_wise_plan(kind, operands, result_types, m, memory, lhs, rhs);
    semantics::law_contiguous_is_injective(res);
    lemma_disjoint_keeps_apart(res, lhs);
    lemma_disjoint_keeps_apart(res, rhs);
    semantics::law_element_wise(m.element_wise(), kind, res, lhs, rhs, memory);
}

// Matrix products
/// Running a bufferized matrix product gives, at each row and column of the accumulator, the
/// element before plus the sum over `k` of `lhs[row, k] * rhs[k, column]`, and leaves the rest
/// of memory as it is.
pub proof fn law_mat_mul_runs(
    op: MatMulOp,
    m: Machine,
    memory: Memory,
    accum: Desc,
    lhs: Desc,
    rhs: Desc,
)
    requires
        op.op.operands@.len() == 3,
        (m.values)(op.op.operands@[0]) == Runtime::Desc(lhs),
        (m.values)(op.op.operands@[1]) == Runtime::Desc(rhs),
        (m.values)(op.op.operands@[2]) == Runtime::Desc(accum),
        semantics::multipliable(accum, lhs, rhs),
    ensures
        ({
            let steps = op.bufferized().steps;
            let after = m.memory_after(memory, steps);
            &&& m.results(memory, steps)[0] == Runtime::Desc(accum)
            &&& forall|row: nat, column: nat|
                row < accum.sizes[0] && column < accum.sizes[1] ==> after[#[trigger] accum.address(
                    semantics::at(row, column),
                )] == semantics::product_element(
                    m.element_wise(),
                    accum,
                    lhs,
                    rhs,
                    memory,
                    row,
                    column,
                    lhs.sizes[1],
                )
            &&& forall|address: int|
                accum.avoids(address) ==> #[trigger] after[address] == memory[address]
        }),
{
    let steps = op.bufferized().steps;
    m.lemma_run_step(memory, steps, 1);
    assert(m.step(m.run(memory, steps, 0).0, memory, steps[0]) == (
        Runtime::Desc(accum),
        m.multiplied(accum, lhs, rhs, memory),
    )) by {
        reveal(Machine::step);
    }
    semantics::law_mat_mul(m, accum, lhs, rhs, memory);
}

// Slices
proof fn lemma_plan_params(m: Machine, results: Seq<Runtime>, params: Seq<SliceParam>)
    requires
        lowering_laws::params_are_ints(m, params),
    ensures
        m.params(results, conversions::plan_params(params)) == lowering_laws::param_values(
            m,
            params,
        ),
{
    assert(m.params(results, conversions::plan_params(params)) =~= lowering_laws::param_values(
        m,
        params,
    ));
}

/// The step of a bufferized `extract_slice` makes a view, and leaves memory as it is.
pub proof fn lemma_extract_slice_step(op: ExtractSliceOp, m: Machine, memory: Memory)
    requires
        op.op.operands@.len() >= 1,
        (m.values)(op.op.operands@[0]) is Desc,
        lowering_laws::params_are_ints(m, op.offsets()),
        lowering_laws::params_are_ints(m, op.sizes()),
        lowering_laws::params_are_ints(m, op.steps()),
    ensures
        ({
            let steps = op.bufferized().steps;
            &&& m.memory_after(memory, steps) == memory
            &&& m.results(memory, steps) == seq![
                Runtime::Desc(
                    (m.values)(op.op.operands@[0])->Desc_0.subview(
                        lowering_laws::param_values(m, op.offsets()),
                        lowering_laws::param_values(m, op.sizes()),
                        lowering_laws::param_values(m, op.steps()),
                    ),
                ),
            ]
        }),
{
    let steps = op.bufferized().steps;
    let r0 = m.run(memory, steps, 0).0;
    lemma_plan_params(m, r0, op.offsets());
    lemma_plan_params(m, r0, op.sizes());
    lemma_plan_params(m, r0, op.steps());
    m.lemma_run_step(memory, steps, 1);
    reveal(Machine::step);
    assert(m.results(memory, steps) =~= seq![m.results(memory, steps)[0]]);
}

/// The steps of a bufferized `insert_slice` copy the source to a view of the destination.
pub proof fn lemma_insert_slice_steps(op: InsertSliceOp, m: Machine, memory: Memory)
    requires
        op.op.operands@.len() >= 2,
        (m.values)(op.op.operands@[0]) is Desc,
        (m.values)(op.op.operands@[1]) is Desc,
        lowering_laws::params_are_ints(m, op.offsets()),
        lowering_laws::params_are_ints(m, op.sizes()),
        lowering_laws::params_are_ints(m, op.steps()),
    ensures
        m.memory_after(memory, op.bufferized().steps) == semantics::copied(
            (m.values)(op.op.operands@[1])->Desc_0.subview(
                lowering_laws::param_values(m, op.offsets()),
                lowering_laws::param_values(m, op.sizes()),
                lowering_laws::param_values(m, op.steps()),
            ),
            (m.values)(op.op.operands@[0])->Desc_0,
            memory,
        ),
{
    let steps = op.bufferized().steps;
    let source = (m.values)(op.op.operands@[0])->Desc_0;
    let view = (m.values)(op.op.operands@[1])->Desc_0.subview(
        lowering_laws::param_values(m, op.offsets()),
        lowering_laws::param_values(m, op.sizes()),
        lowering_laws::param_values(m, op.steps()),
    );
    let r0 = m.run(memory, steps, 0).0;
    lemma_plan_params(m, r0, op.offsets());
    lemma_plan_params(m, r0, op.sizes());
    lemma_plan_params(m, r0, op.steps());
    m.lemma_run_step(memory, steps, 1);
    assert(m.step(r0, memory, steps[0]) == (Runtime::Desc(view), memory)) by {
        reveal(Machine::step);
    }
    let r1 = m.run(memory, steps, 1).0;
    m.lemma_run_step(memory, steps, 2);
    assert(m.step(r1, memory, steps[1]).1 == semantics::copied(view, source, memory)) by {
        reveal(Machine::step);
    }
}

/// The step of a bufferized `reshape` gives the memref another shape, and leaves memory as it is.
pub proof fn lemma_reshape_step(op: ReshapeOp, m: Machine, memory: Memory)
    requires
        op.wf(m.ctx),
        m.ctx.holds(memref::stored_as(m.ctx.get(op.op.result_types@[0]))),
        (m.values)(op.op.operands@[0]) is Desc,
        lowering_laws::are_ints(m, op.op.operands@.skip(1)),
    ensures
        ({
            let steps = op.bufferized(m.ctx).steps;
            let sizes = semantics::filled_sizes(
                m.ctx.as_tensor(op.op.result_types@[0])->Some_0.shape,
                lowering_laws::ints_of(m, op.op.operands@.skip(1)),
            );
            &&& m.memory_after(memory, steps) == memory
            &&& m.results(memory, steps) == seq![
                Runtime::Desc((m.values)(op.op.operands@[0])->Desc_0.reshaped(sizes)),
            ]
        }),
{
    let steps = op.bufferized(m.ctx).steps;
    let r0 = m.run(memory, steps, 0).0;
    let dynamic = lowering_laws::ints_of(m, op.op.operands@.skip(1));
    m.lemma_run_step(memory, steps, 1);
    assert(m.ints(r0, plan::value_refs(op.op.operands@.skip(1))) =~= dynamic);
    reveal(Machine::step);
    assert(m.results(memory, steps) =~= seq![m.results(memory, steps)[0]]);
}

/// Running a bufferized `extract_slice` gives a view of the source, whose element at an index
/// is the element of the source at the offset plus the index times the step, and leaves memory
/// as it is.
pub proof fn law_extract_slice_runs(
    op: ExtractSliceOp,
    m: Machine,
    memory: Memory,
    source: Desc,
    idxs: Seq<nat>,
)
    requires
        op.op.operands@.len() >= 1,
        op.has_params(),
        (m.values)(op.op.operands@[0]) == Runtime::Desc(source),
        source.wf(),
        op.offsets().len() == source.sizes.len(),
        op.sizes().len() == source.sizes.len(),
        op.steps().len() == source.sizes.len(),
        idxs.len() == source.sizes.len(),
        lowering_laws::params_are_ints(m, op.offsets()),
        lowering_laws::params_are_ints(m, op.sizes()),
        lowering_laws::params_are_ints(m, op.steps()),
    ensures
        ({
            let steps = op.bufferized().steps;
            &&& m.memory_after(memory, steps) == memory
            &&& m.results(memory, steps)[0] matches Runtime::Desc(view) && view.sizes
                == lowering_laws::param_values(m, op.sizes()) && view.address(idxs)
                == source.address(
                semantics::slice_indices(
                    lowering_laws::param_values(m, op.offsets()),
                    lowering_laws::param_values(m, op.steps()),
                    idxs,
                ),
            )
        }),
{
    let steps = op.bufferized().steps;
    let r0 = m.run(memory, steps, 0).0;
    let offsets = lowering_laws::param_values(m, op.offsets());
    let sizes = lowering_laws::param_values(m, op.sizes());
    let factors = lowering_laws::param_values(m, op.steps());
    lemma_plan_params(m, r0, op.offsets());
    lemma_plan_params(m, r0, op.sizes());
    lemma_plan_params(m, r0, op.steps());
    m.lemma_run_step(memory, steps, 1);
    assert(m.step(r0, memory, steps[0]) == (
        Runtime::Desc(source.subview(offsets, sizes, factors)),
        memory,
    )) by {
        reveal(Machine::step);
    }
    semantics::law_subview_elements(source, offsets, sizes, factors, idxs);
}

/// The slice lies within the destination, and no step is zero.
pub open spec fn slice_within(
    destination: Desc,
    offsets: Seq<nat>,
    sizes: Seq<nat>,
    steps: Seq<nat>,
) -> bool {
    &&& destination.wf()
    &&& offsets.len() == destination.sizes.len()
    &&& sizes.len() == destination.sizes.len()
    &&& steps.len() == destination.sizes.len()
    &&& forall|d: int| 0 <= d < steps.len() ==> #[trigger] steps[d] > 0
    &&& forall|idxs: Seq<nat>|
        row_major::in_bounds(sizes, idxs) ==> row_major::in_bounds(
            destination.sizes,
            #[trigger] semantics::slice_indices(offsets, steps, idxs),
        )
}

/// Different elements of a slice are different elements of the source.
proof fn lemma_slice_injective(
    destination: Desc,
    offsets: Seq<nat>,
    sizes: Seq<nat>,
    steps: Seq<nat>,
    a: Seq<nat>,
    b: Seq<nat>,
)
    requires
        slice_within(destination, offsets, sizes, steps),
        destination.injective(),
        row_major::in_bounds(sizes, a),
        row_major::in_bounds(sizes, b),
        a != b,
    ensures
        destination.subview(offsets, sizes, steps).address(a) != destination.subview(
            offsets,
            sizes,
            steps,
        ).address(b),
{
    semantics::law_subview_elements(destination, offsets, sizes, steps, a);
    semantics::law_subview_elements(destination, offsets, sizes, steps, b);
    let p = semantics::slice_indices(offsets, steps, a);
    let q = semantics::slice_indices(offsets, steps, b);
    assert(p != q) by {
        if p == q {
            assert forall|d: int| 0 <= d < a.len() implies a[d] == b[d] by {
                assert(p[d] == q[d]);
                let x = a[d] as int;
                let y = b[d] as int;
                let t = steps[d] as int;
                assert(steps[d] > 0);
                assert(x == y) by (nonlinear_arith)
                    requires
                        x * t == y * t,
                        t > 0,
                ;
            }
            assert(a =~= b);
        }
    }
    lemma_addresses_differ(destination, p, q);
}

/// Running a bufferized `insert_slice` puts each element of the source at its place in the
/// slice of the destination, and leaves the rest of memory as it is, the rest of the
/// destination included.
pub proof fn law_insert_slice_runs(
    op: InsertSliceOp,
    m: Machine,
    memory: Memory,
    destination: Desc,
    source: Desc,
)
    requires
        op.op.operands@.len() >= 2,
        op.has_params(),
        (m.values)(op.op.operands@[0]) == Runtime::Desc(source),
        (m.values)(op.op.operands@[1]) == Runtime::Desc(destination),
        lowering_laws::params_are_ints(m, op.offsets()),
        lowering_laws::params_are_ints(m, op.sizes()),
        lowering_laws::params_are_ints(m, op.steps()),
        slice_within(
            destination,
            lowering_laws::param_values(m, op.offsets()),
            lowering_laws::param_values(m, op.sizes()),
            lowering_laws::param_values(m, op.steps()),
        ),
        source.sizes == lowering_laws::param_values(m, op.sizes()),
        destination.injective(),
        source.disjoint(destination),
    ensures
        ({
            let steps = op.bufferized().steps;
            let after = m.memory_after(memory, steps);
            let offsets = lowering_laws::param_values(m, op.offsets());
            let factors = lowering_laws::param_values(m, op.steps());
            &&& forall|idxs: Seq<nat>|
                row_major::in_bounds(source.sizes, idxs) ==> after[destination.address(
                    #[trigger] semantics::slice_indices(offsets, factors, idxs),
                )] == memory[source.address(idxs)]
            &&& forall|address: int|
                (forall|idxs: Seq<nat>|
                    row_major::in_bounds(source.sizes, idxs) ==> destination.address(
                        #[trigger] semantics::slice_indices(offsets, factors, idxs),
                    ) != address) ==> #[trigger] after[address] == memory[address]
        }),
{
    let steps = op.bufferized().steps;
    let r0 = m.run(memory, steps, 0).0;
    let offsets = lowering_laws::param_values(m, op.offsets());
    let sizes = lowering_laws::param_values(m, op.sizes());
    let factors = lowering_laws::param_values(m, op.steps());
    lemma_plan_params(m, r0, op.offsets());
    lemma_plan_params(m, r0, op.sizes());
    lemma_plan_params(m, r0, op.steps());
    let view = destination.subview(offsets, sizes, factors);
    m.lemma_run_step(memory, steps, 1);
    assert(m.step(r0, memory, steps[0]) == (Runtime::Desc(view), memory)) by {
        reveal(Machine::step);
    }
    let r1 = m.run(memory, steps, 1).0;
    m.lemma_run_step(memory, steps, 2);
    assert(m.step(r1, memory, steps[1]).1 == semantics::copied(view, source, memory)) by {
        reveal(Machine::step);
    }
    let after = m.memory_after(memory, steps);
    assert(view.injective()) by {
        assert forall|a: nat, b: nat| a < b < view.count() implies #[trigger] view.nth(a)
            != #[trigger] view.nth(b) by {
            row_major::lemma_delinearize(sizes, a);
            row_major::lemma_delinearize(sizes, b);
            let p = row_major::delinearize(sizes, a);
            let q = row_major::delinearize(sizes, b);
            lemma_slice_injective(destination, offsets, sizes, factors, p, q);
        }
    }
    assert(semantics::keeps_apart(view, source)) by {
        assert forall|a: nat, b: nat|
            a < view.count() && b < view.count() && a != b implies #[trigger] view.nth(a)
            != #[trigger] source.nth(b) by {
            row_major::lemma_delinearize(sizes, a);
            let p = row_major::delinearize(sizes, a);
            semantics::law_subview_elements(destination, offsets, sizes, factors, p);
            let at = semantics::slice_indices(offsets, factors, p);
            semantics::lemma_address_is_nth(destination, at);
            assert(destination.avoids(source.nth(b)));
            assert(destination.nth(row_major::linearize(destination.sizes, at)) != source.nth(b));
        }
    }
    semantics::law_copy(view, source, memory);
    assert forall|idxs: Seq<nat>| row_major::in_bounds(source.sizes, idxs) implies after[
    destination.address(#[trigger] semantics::slice_indices(offsets, factors, idxs))]
        == memory[source.address(idxs)] by {
        semantics::law_subview_elements(destination, offsets, sizes, factors, idxs);
        semantics::lemma_address_is_nth(view, idxs);
        semantics::lemma_address_is_nth(source, idxs);
    }
    assert forall|address: int|
        (forall|idxs: Seq<nat>|
            row_major::in_bounds(source.sizes, idxs) ==> destination.address(
                #[trigger] semantics::slice_indices(offsets, factors, idxs),
            ) != address) implies #[trigger] after[address] == memory[address] by {
        assert(view.avoids(address)) by {
            assert forall|lin: nat| lin < view.count() implies #[trigger] view.nth(lin)
                != address by {
                row_major::lemma_delinearize(sizes, lin);
                let idxs = row_major::delinearize(sizes, lin);
                semantics::law_subview_elements(destination, offsets, sizes, factors, idxs);
                assert(destination.address(semantics::slice_indices(offsets, factors, idxs))
                    != address);
            }
        }
    }
}

// Shapes
/// Running a bufferized `reshape` of a contiguous memref gives a memref that holds the same
/// elements in the same row-major order, and leaves memory as it is.
pub proof fn law_reshape_runs(
    op: ReshapeOp,
    m: Machine,
    memory: Memory,
    source: Desc,
    lin: nat,
)
    requires
        op.wf(m.ctx),
        m.ctx.holds(memref::stored_as(m.ctx.get(op.op.result_types@[0]))),
        (m.values)(op.op.operands@[0]) == Runtime::Desc(source),
        lowering_laws::are_ints(m, op.op.operands@.skip(1)),
        source.contiguous(),
        ({
            let sizes = semantics::filled_sizes(
                m.ctx.as_tensor(op.op.result_types@[0])->Some_0.shape,
                lowering_laws::ints_of(m, op.op.operands@.skip(1)),
            );
            row_major::product(sizes) == source.count()
        }),
        lin < source.count(),
    ensures
        ({
            let steps = op.bufferized(m.ctx).steps;
            let sizes = semantics::filled_sizes(
                m.ctx.as_tensor(op.op.result_types@[0])->Some_0.shape,
                lowering_laws::ints_of(m, op.op.operands@.skip(1)),
            );
            &&& m.memory_after(memory, steps) == memory
            &&& m.results(memory, steps)[0] matches Runtime::Desc(res) && res.sizes == sizes
                && res.contiguous() && res.nth(lin) == source.nth(lin)
        }),
{
    let steps = op.bufferized(m.ctx).steps;
    let r0 = m.run(memory, steps, 0).0;
    let dynamic = lowering_laws::ints_of(m, op.op.operands@.skip(1));
    let sizes = semantics::filled_sizes(
        m.ctx.as_tensor(op.op.result_types@[0])->Some_0.shape,
        dynamic,
    );
    m.lemma_run_step(memory, steps, 1);
    assert(m.ints(r0, plan::value_refs(op.op.operands@.skip(1))) =~= dynamic);
    assert(m.step(r0, memory, steps[0]) == (Runtime::Desc(source.reshaped(sizes)), memory)) by {
        reveal(Machine::step);
    }
    semantics::law_reshape_keeps_order(source, sizes, lin);
}

// Batches of matrix products
/// The index of an element of a matrix of a batch.
pub open spec fn batch_at(batch: Seq<nat>, row: nat, column: nat) -> Seq<nat> {
    batch + semantics::at(row, column)
}

/// The sizes of a batch of matrices.
pub open spec fn batch_sizes(d: Desc) -> Seq<nat> {
    d.sizes.take(d.sizes.len() - 2)
}

pub open spec fn rows(d: Desc) -> nat {
    d.sizes[d.sizes.len() - 2]
}

pub open spec fn columns(d: Desc) -> nat {
    d.sizes[d.sizes.len() - 1]
}

/// The elements of each matrix of a batch lie one after the other.
pub open spec fn matrices_contiguous(d: Desc) -> bool {
    &&& d.strides[d.strides.len() - 2] == columns(d)
    &&& d.strides[d.strides.len() - 1] == 1
}

/// The batches fit together, and no element of the accumulator is an element of a factor.
pub open spec fn batch_multipliable(accum: Desc, lhs: Desc, rhs: Desc) -> bool {
    &&& lhs.wf() && rhs.wf() && accum.wf()
    &&& lhs.sizes.len() >= 2
    &&& rhs.sizes == batch_at(batch_sizes(lhs), columns(lhs), columns(rhs))
    &&& accum.sizes == batch_at(batch_sizes(lhs), rows(lhs), columns(rhs))
    &&& accum.injective()
    &&& lhs.disjoint(accum)
    &&& rhs.disjoint(accum)
}

/// The element of a product of batches at an index of the batch, a row and a column: that of
/// the accumulator, plus the products of the elements of the row of one factor and the column
/// of the other.
pub open spec fn batch_element(
    m: Machine,
    accum: Desc,
    lhs: Desc,
    rhs: Desc,
    memory: Memory,
    batch: Seq<nat>,
    row: nat,
    column: nat,
) -> int {
    semantics::sum_of_products(
        m.element_wise(),
        memory[accum.address(batch_at(batch, row, column))],
        |k: nat| memory[lhs.address(batch_at(batch, row, k))],
        |k: nat| memory[rhs.address(batch_at(batch, k, column))],
        columns(lhs),
    )
}

/// The matrix of a batch at an index.
spec fn matrix(d: Desc, batch: Seq<nat>) -> Desc {
    d.subview(
        batch_at(batch, 0, 0),
        Seq::new(batch.len(), |i: int| 1nat) + semantics::at(rows(d), columns(d)),
        Seq::new(batch.len() + 2, |i: int| 1nat),
    ).reshaped(semantics::at(rows(d), columns(d)))
}

proof fn lemma_dot_prefix(a: Seq<nat>, b: Seq<nat>, strides: Seq<nat>, n: nat)
    requires
        n <= a.len(),
        n <= b.len(),
        forall|i: int| 0 <= i < n ==> #[trigger] a[i] == b[i],
    ensures
        row_major::dot_upto(a, strides, n) == row_major::dot_upto(b, strides, n),
    decreases n,
{
    if n > 0 {
        lemma_dot_prefix(a, b, strides, (n - 1) as nat);
        assert(a[n - 1] == b[n - 1]);
    }
}

proof fn lemma_two_strides(rows: nat, columns: nat)
    ensures
        semantics::row_major_strides(semantics::at(rows, columns)) == semantics::at(columns, 1),
{
    let sizes = semantics::at(rows, columns);
    let none = Seq::<nat>::empty();
    assert(sizes.skip(2) =~= none);
    assert(sizes.skip(1) =~= none.push(columns));
    row_major::lemma_product_push(none, columns);
    assert(row_major::product(none) == 1);
    lemma_mul_basics(columns as int);
    assert(semantics::row_major_strides(sizes) =~= semantics::at(columns, 1));
}

/// An element of a matrix of a batch is an element of the batch.
proof fn lemma_matrix_address(d: Desc, batch: Seq<nat>, row: nat, column: nat)
    requires
        d.wf(),
        d.sizes.len() >= 2,
        batch.len() == d.sizes.len() - 2,
        matrices_contiguous(d),
    ensures
        matrix(d, batch).address(semantics::at(row, column)) == d.address(
            batch_at(batch, row, column),
        ),
        matrix(d, batch).sizes == semantics::at(rows(d), columns(d)),
        matrix(d, batch).wf(),
{
    let n = d.sizes.len();
    let inner = (n - 2) as nat;
    let origin = batch_at(batch, 0, 0);
    let full = batch_at(batch, row, column);
    let s = d.strides;
    lemma_two_strides(rows(d), columns(d));
    lemma_dot_prefix(origin, full, s, inner);
    reveal_with_fuel(row_major::dot_upto, 3);
    lemma_mul_basics(s[n - 2] as int);
    lemma_mul_basics(s[n - 1] as int);
    lemma_mul_basics(column as int);
    assert(origin[n - 2] == 0);
    assert(origin[n - 1] == 0);
    assert(full[n - 2] == row);
    assert(full[n - 1] == column);
    assert(row_major::dot(origin, s) == row_major::dot_upto(origin, s, inner));
    assert(row_major::dot(full, s) == row_major::dot_upto(full, s, inner) + row * columns(d)
        + column);
    let strides = semantics::at(columns(d), 1);
    let idxs = semantics::at(row, column);
    assert(row_major::dot(idxs, strides) == row * columns(d) + column * 1);
}

/// Two elements of a memref at different indices have different addresses.
proof fn lemma_addresses_differ(d: Desc, a: Seq<nat>, b: Seq<nat>)
    requires
        d.injective(),
        row_major::in_bounds(d.sizes, a),
        row_major::in_bounds(d.sizes, b),
        a != b,
    ensures
        d.address(a) != d.address(b),
{
    semantics::lemma_address_is_nth(d, a);
    semantics::lemma_address_is_nth(d, b);
    row_major::lemma_linearize(d.sizes, a);
    row_major::lemma_linearize(d.sizes, b);
    let x = row_major::linearize(d.sizes, a);
    let y = row_major::linearize(d.sizes, b);
    if x < y {
        assert(d.nth(x) != d.nth(y));
    } else {
        assert(d.nth(y) != d.nth(x));
    }
}

pub proof fn lemma_batch_in_bounds(sizes: Seq<nat>, batch: Seq<nat>, row: nat, column: nat)
    requires
        sizes.len() >= 2,
        row_major::in_bounds(sizes.take(sizes.len() - 2), batch),
        row < sizes[sizes.len() - 2],
        column < sizes[sizes.len() - 1],
    ensures
        row_major::in_bounds(sizes, batch_at(batch, row, column)),
{
    let idxs = batch_at(batch, row, column);
    assert forall|d: int| 0 <= d < sizes.len() implies #[trigger] idxs[d] < sizes[d] by {
        if d < sizes.len() - 2 {
            assert(batch[d] < sizes.take(sizes.len() - 2)[d]);
        }
    }
}

pub proof fn lemma_sum_same(
    element_wise: spec_fn(ElementWiseKind, int, int) -> int,
    start: int,
    row: spec_fn(nat) -> int,
    column: spec_fn(nat) -> int,
    other_row: spec_fn(nat) -> int,
    other_column: spec_fn(nat) -> int,
    n: nat,
)
    requires
        forall|k: nat| k < n ==> #[trigger] row(k) == other_row(k),
        forall|k: nat| k < n ==> #[trigger] column(k) == other_column(k),
    ensures
        semantics::sum_of_products(element_wise, start, row, column, n)
            == semantics::sum_of_products(element_wise, start, other_row, other_column, n),
    decreases n,
{
    if n > 0 {
        let k = (n - 1) as nat;
        lemma_sum_same(element_wise, start, row, column, other_row, other_column, k);
        assert(row(k) == other_row(k));
        assert(column(k) == other_column(k));
    }
}

/// What holds after the first `n` matrices of a batch have been multiplied.
spec fn batch_done(
    m: Machine,
    accum: Desc,
    lhs: Desc,
    rhs: Desc,
    memory: Memory,
    after: Memory,
    n: nat,
) -> bool {
    &&& forall|batch: Seq<nat>, row: nat, column: nat|
        row_major::in_bounds(batch_sizes(lhs), batch) && row < rows(lhs) && column < columns(rhs)
            ==> after[#[trigger] accum.address(batch_at(batch, row, column))] == (if row_major::linearize(
            batch_sizes(lhs),
            batch,
        ) < n {
            batch_element(m, accum, lhs, rhs, memory, batch, row, column)
        } else {
            memory[accum.address(batch_at(batch, row, column))]
        })
    &&& forall|address: int|
        accum.avoids(address) ==> #[trigger] after[address] == memory[address]
}

proof fn lemma_matrices_multipliable(accum: Desc, lhs: Desc, rhs: Desc, batch: Seq<nat>)
    requires
        batch_multipliable(accum, lhs, rhs),
        matrices_contiguous(accum),
        matrices_contiguous(lhs),
        matrices_contiguous(rhs),
        row_major::in_bounds(batch_sizes(lhs), batch),
    ensures
        semantics::multipliable(matrix(accum, batch), matrix(lhs, batch), matrix(rhs, batch)),
{
    let a = matrix(accum, batch);
    let l = matrix(lhs, batch);
    let r = matrix(rhs, batch);
    assert(batch_sizes(accum) =~= batch_sizes(lhs));
    assert(batch_sizes(rhs) =~= batch_sizes(lhs));
    lemma_matrix_address(accum, batch, 0, 0);
    lemma_matrix_address(lhs, batch, 0, 0);
    lemma_matrix_address(rhs, batch, 0, 0);
    assert(a.injective()) by {
        assert forall|x: nat, y: nat| x < y < a.count() implies #[trigger] a.nth(x)
            != #[trigger] a.nth(y) by {
            lemma_matrix_nth(accum, batch, x);
            lemma_matrix_nth(accum, batch, y);
            let i = row_major::delinearize(a.sizes, x);
            let j = row_major::delinearize(a.sizes, y);
            if i == j {
                row_major::lemma_delinearize_injective(a.sizes, x, y);
            }
            let p = batch_at(batch, i[0], i[1]);
            let q = batch_at(batch, j[0], j[1]);
            assert(p != q) by {
                if p == q {
                    let n = batch.len() as int;
                    assert(p[n] == q[n]);
                    assert(p[n + 1] == q[n + 1]);
                    assert(i =~= j);
                }
            }
            lemma_addresses_differ(accum, p, q);
        }
    }
    lemma_matrix_disjoint(accum, lhs, batch);
    lemma_matrix_disjoint(accum, rhs, batch);
    assert(l.sizes =~= seq![a.sizes[0], l.sizes[1]]);
    assert(r.sizes =~= seq![l.sizes[1], a.sizes[1]]);
}

/// The elements of a matrix of a batch, in row-major order.
proof fn lemma_matrix_nth(d: Desc, batch: Seq<nat>, lin: nat)
    requires
        d.wf(),
        d.sizes.len() >= 2,
        row_major::in_bounds(batch_sizes(d), batch),
        matrices_contiguous(d),
        lin < matrix(d, batch).count(),
    ensures
        ({
            let idxs = row_major::delinearize(matrix(d, batch).sizes, lin);
            &&& idxs.len() == 2
            &&& matrix(d, batch).nth(lin) == d.address(batch_at(batch, idxs[0], idxs[1]))
            &&& row_major::in_bounds(d.sizes, batch_at(batch, idxs[0], idxs[1]))
        }),
{
    let x = matrix(d, batch);
    let idxs = row_major::delinearize(x.sizes, lin);
    row_major::lemma_delinearize(x.sizes, lin);
    lemma_matrix_address(d, batch, idxs[0], idxs[1]);
    assert(idxs[0] < x.sizes[0]);
    assert(idxs[1] < x.sizes[1]);
    assert(idxs =~= semantics::at(idxs[0], idxs[1]));
    lemma_batch_in_bounds(d.sizes, batch, idxs[0], idxs[1]);
}

proof fn lemma_matrix_disjoint(accum: Desc, factor: Desc, batch: Seq<nat>)
    requires
        accum.wf(),
        factor.wf(),
        accum.sizes.len() >= 2,
        factor.sizes.len() >= 2,
        matrices_contiguous(accum),
        matrices_contiguous(factor),
        row_major::in_bounds(batch_sizes(accum), batch),
        row_major::in_bounds(batch_sizes(factor), batch),
        factor.disjoint(accum),
    ensures
        matrix(factor, batch).disjoint(matrix(accum, batch)),
{
    let f = matrix(factor, batch);
    let a = matrix(accum, batch);
    assert forall|lin: nat| lin < f.count() implies a.avoids(#[trigger] f.nth(lin)) by {
        lemma_matrix_nth(factor, batch, lin);
        let i = row_major::delinearize(f.sizes, lin);
        let p = batch_at(batch, i[0], i[1]);
        semantics::lemma_address_is_nth(factor, p);
        assert(accum.avoids(factor.nth(row_major::linearize(factor.sizes, p))));
        assert forall|other: nat| other < a.count() implies #[trigger] a.nth(other) != f.nth(
            lin,
        ) by {
            lemma_matrix_nth(accum, batch, other);
            let j = row_major::delinearize(a.sizes, other);
            let q = batch_at(batch, j[0], j[1]);
            semantics::lemma_address_is_nth(accum, q);
            assert(accum.nth(row_major::linearize(accum.sizes, q)) != f.nth(lin));
        }
    }
}

/// Multiplying one more pair of matrices.
#[verifier::rlimit(40)]
proof fn lemma_batch_step(
    m: Machine,
    accum: Desc,
    lhs: Desc,
    rhs: Desc,
    memory: Memory,
    before: Memory,
    n: nat,
)
    requires
        batch_multipliable(accum, lhs, rhs),
        matrices_contiguous(accum),
        matrices_contiguous(lhs),
        matrices_contiguous(rhs),
        n < row_major::product(batch_sizes(lhs)),
        batch_done(m, accum, lhs, rhs, memory, before, n),
    ensures
        ({
            let batch = row_major::delinearize(batch_sizes(lhs), n);
            batch_done(
                m,
                accum,
                lhs,
                rhs,
                memory,
                m.multiplied(matrix(accum, batch), matrix(lhs, batch), matrix(rhs, batch), before),
                n + 1,
            )
        }),
{
    let sizes = batch_sizes(lhs);
    let batch = row_major::delinearize(sizes, n);
    row_major::lemma_delinearize(sizes, n);
    let a = matrix(accum, batch);
    let l = matrix(lhs, batch);
    let r = matrix(rhs, batch);
    let inner = columns(lhs);
    assert(batch_sizes(accum) =~= sizes);
    assert(batch_sizes(rhs) =~= sizes);
    lemma_matrices_multipliable(accum, lhs, rhs, batch);
    semantics::law_mat_mul(m, a, l, r, before);
    let after = m.multiplied(a, l, r, before);
    lemma_matrix_address(accum, batch, 0, 0);
    lemma_matrix_address(lhs, batch, 0, 0);
    lemma_matrix_address(rhs, batch, 0, 0);
    assert forall|other: Seq<nat>, row: nat, column: nat|
        row_major::in_bounds(sizes, other) && row < rows(lhs) && column < columns(
            rhs,
        ) implies after[#[trigger] accum.address(batch_at(other, row, column))] == (
    if row_major::linearize(sizes, other) < n + 1 {
        batch_element(m, accum, lhs, rhs, memory, other, row, column)
    } else {
        memory[accum.address(batch_at(other, row, column))]
    }) by {
        let address = accum.address(batch_at(other, row, column));
        row_major::lemma_linearize(sizes, other);
        lemma_batch_in_bounds(accum.sizes, other, row, column);
        if other == batch {
            lemma_matrix_address(accum, batch, row, column);
            assert(after[a.address(semantics::at(row, column))] == semantics::product_element(
                m.element_wise(),
                a,
                l,
                r,
                before,
                row,
                column,
                inner,
            ));
            let row1 = |k: nat| before[l.address(semantics::at(row, k))];
            let column1 = |k: nat| before[r.address(semantics::at(k, column))];
            let row2 = |k: nat| memory[lhs.address(batch_at(batch, row, k))];
            let column2 = |k: nat| memory[rhs.address(batch_at(batch, k, column))];
            assert forall|k: nat| k < inner implies #[trigger] row1(k) == row2(k) by {
                lemma_matrix_address(lhs, batch, row, k);
                let p = batch_at(batch, row, k);
                lemma_batch_in_bounds(lhs.sizes, batch, row, k);
                semantics::lemma_address_is_nth(lhs, p);
                assert(accum.avoids(lhs.nth(row_major::linearize(lhs.sizes, p))));
                assert(before[lhs.address(p)] == memory[lhs.address(p)]);
            }
            assert forall|k: nat| k < inner implies #[trigger] column1(k) == column2(k) by {
                lemma_matrix_address(rhs, batch, k, column);
                let p = batch_at(batch, k, column);
                lemma_batch_in_bounds(rhs.sizes, batch, k, column);
                semantics::lemma_address_is_nth(rhs, p);
                assert(accum.avoids(rhs.nth(row_major::linearize(rhs.sizes, p))));
                assert(before[rhs.address(p)] == memory[rhs.address(p)]);
            }
            assert(before[address] == memory[address]);
            lemma_sum_same(
                m.element_wise(),
                memory[address],
                row1,
                column1,
                row2,
                column2,
                inner,
            );
        } else {
            if row_major::linearize(sizes, other) == n {
                assert(other == batch);
            }
            assert(a.avoids(address)) by {
                assert forall|lin: nat| lin < a.count() implies #[trigger] a.nth(lin)
                    != address by {
                    lemma_matrix_nth(accum, batch, lin);
                    let i = row_major::delinearize(a.sizes, lin);
                    let p = batch_at(batch, i[0], i[1]);
                    let q = batch_at(other, row, column);
                    assert(p != q) by {
                        if p == q {
                            assert(p.take(batch.len() as int) =~= batch);
                            assert(q.take(batch.len() as int) =~= other);
                        }
                    }
                    lemma_addresses_differ(accum, p, q);
                }
            }
            assert(after[address] == before[address]);
        }
    }
    assert forall|address: int| accum.avoids(address) implies #[trigger] after[address]
        == memory[address] by {
        assert(a.avoids(address)) by {
            assert forall|lin: nat| lin < a.count() implies #[trigger] a.nth(lin) != address by {
                lemma_matrix_nth(accum, batch, lin);
                let i = row_major::delinearize(a.sizes, lin);
                let p = batch_at(batch, i[0], i[1]);
                semantics::lemma_address_is_nth(accum, p);
                assert(accum.nth(row_major::linearize(accum.sizes, p)) != address);
            }
        }
        assert(before[address] == memory[address]);
    }
}

/// What a size parameter is when the program runs.
proof fn lemma_size_param(
    m: Machine,
    outer: Seq<Runtime>,
    index: Seq<nat>,
    results: Seq<Runtime>,
    dim: Dimension,
    step: int,
    size: nat,
)
    requires
        0 <= step <= usize::MAX,
        outer[step] == Runtime::Int(size),
        dim matches Dimension::Static(n) ==> size == n,
    ensures
        match conversions::size_param(dim, step) {
            Param::Static(n) => n == size,
            Param::Dynamic(r) => m.body_get(outer, index, results, r) == Runtime::Int(size),
        },
{
}

/// The sizes of a matrix type, with the sizes of its dynamic dimensions given in order.
proof fn lemma_matrix_sizes(
    m: Machine,
    outer: Seq<Runtime>,
    index: Seq<nat>,
    results: Seq<Runtime>,
    a: Dimension,
    a_step: int,
    a_size: nat,
    b: Dimension,
    b_step: int,
    b_size: nat,
)
    requires
        0 <= a_step <= usize::MAX,
        0 <= b_step <= usize::MAX,
        outer[a_step] == Runtime::Int(a_size),
        outer[b_step] == Runtime::Int(b_size),
        a matches Dimension::Static(n) ==> a_size == n,
        b matches Dimension::Static(n) ==> b_size == n,
    ensures
        semantics::filled_sizes(
            seq![a, b],
            m.body_ints(
                outer,
                index,
                results,
                conversions::dynamic_pair(
                    conversions::size_param(a, a_step),
                    conversions::size_param(b, b_step),
                ),
            ),
        ) == semantics::at(a_size, b_size),
{
    let refs = conversions::dynamic_pair(
        conversions::size_param(a, a_step),
        conversions::size_param(b, b_step),
    );
    let ints = m.body_ints(outer, index, results, refs);
    let shape = seq![a, b];
    let none = Seq::<Dimension>::empty();
    reveal_with_fuel(semantics::filled_sizes, 4);
    assert(shape.drop_last() =~= none.push(a));
    assert(none.push(a).drop_last() =~= none);
    assert(semantics::filled_sizes(shape, ints) =~= semantics::at(a_size, b_size));
}

/// Taking a matrix out of a batch.
proof fn lemma_matrix_view(
    m: Machine,
    outer: Seq<Runtime>,
    index: Seq<nat>,
    results: Seq<Runtime>,
    memory: Memory,
    source: Value,
    rows_param: Param,
    columns_param: Param,
)
    requires
        (m.values)(source) is Desc,
        (m.values)(source)->Desc_0.sizes.len() == index.len() + 2,
        index.len() + 2 <= usize::MAX,
        match rows_param {
            Param::Static(n) => n == rows((m.values)(source)->Desc_0),
            Param::Dynamic(r) => m.body_get(outer, index, results, r) == Runtime::Int(
                rows((m.values)(source)->Desc_0),
            ),
        },
        match columns_param {
            Param::Static(n) => n == columns((m.values)(source)->Desc_0),
            Param::Dynamic(r) => m.body_get(outer, index, results, r) == Runtime::Int(
                columns((m.values)(source)->Desc_0),
            ),
        },
    ensures
        ({
            let d = (m.values)(source)->Desc_0;
            m.body_step(
                outer,
                index,
                results,
                memory,
                conversions::matrix_view(
                    Ref::Value(source),
                    index.len(),
                    rows_param,
                    columns_param,
                ),
            ) == (
                Runtime::Desc(
                    d.subview(
                        batch_at(index, 0, 0),
                        Seq::new(index.len(), |i: int| 1nat) + semantics::at(rows(d), columns(d)),
                        Seq::new(index.len() + 2, |i: int| 1nat),
                    ),
                ),
                memory,
            )
        }),
{
    let d = (m.values)(source)->Desc_0;
    let n = index.len();
    assert(m.body_params(outer, index, results, conversions::matrix_offsets(n)) =~= batch_at(
        index,
        0,
        0,
    ));
    assert(m.body_params(
        outer,
        index,
        results,
        conversions::matrix_sizes(n, rows_param, columns_param),
    ) =~= Seq::new(n, |i: int| 1nat) + semantics::at(rows(d), columns(d)));
    assert(m.body_params(outer, index, results, conversions::unit_steps(n + 2)) =~= Seq::new(
        n + 2,
        |i: int| 1nat,
    ));
    reveal(Machine::body_step);
}

/// The values of the program that a product of batches has as operands.
spec fn batch_operands(op: BatchMatMulOp, m: Machine, accum: Desc, lhs: Desc, rhs: Desc) -> bool {
    &&& (m.values)(op.op.operands@[0]) == Runtime::Desc(lhs)
    &&& (m.values)(op.op.operands@[1]) == Runtime::Desc(rhs)
    &&& (m.values)(op.op.operands@[2]) == Runtime::Desc(accum)
    &&& fits(op.lhs_shape(m.ctx), lhs.sizes)
    &&& fits(op.rhs_shape(m.ctx), rhs.sizes)
    &&& op.lhs_shape(m.ctx).len() > 2 ==> op.inner_alike(m.ctx)
}

/// The results of the steps that give the sizes of both factors.
spec fn sizes_known(outer: Seq<Runtime>, lhs: Desc, rhs: Desc) -> bool {
    let rank = lhs.sizes.len() as int;
    &&& forall|i: int| 0 <= i < rank ==> #[trigger] outer[i] == Runtime::Int(lhs.sizes[i])
    &&& forall|i: int|
        rank <= i < 2 * rank ==> #[trigger] outer[i] == Runtime::Int(rhs.sizes[i - rank])
}

/// One round of the loop multiplies one pair of matrices.
#[verifier::rlimit(60)]
proof fn lemma_batch_body(
    op: BatchMatMulOp,
    m: Machine,
    outer: Seq<Runtime>,
    index: Seq<nat>,
    memory: Memory,
    accum: Desc,
    lhs: Desc,
    rhs: Desc,
)
    requires
        op.operands_converted(m.ctx),
        op.has_matrix_types(m.ctx),
        2 * op.lhs_shape(m.ctx).len() + 3 <= usize::MAX,
        batch_operands(op, m, accum, lhs, rhs),
        lhs.sizes.len() > 2,
        batch_multipliable(accum, lhs, rhs),
        sizes_known(outer, lhs, rhs),
        index.len() == lhs.sizes.len() - 2,
    ensures
        ({
            let body = conversions::batch_body(
                Ref::Value(op.op.operands@[0]),
                Ref::Value(op.op.operands@[1]),
                Ref::Value(op.op.operands@[2]),
                index.len(),
                op.matrix_params(m.ctx),
                op.matrix_types(m.ctx),
            );
            m.body(outer, index, memory, body, body.len()).1 == m.multiplied(
                matrix(accum, index),
                matrix(lhs, index),
                matrix(rhs, index),
                memory,
            )
        }),
{
    let params = op.matrix_params(m.ctx);
    let types = op.matrix_types(m.ctx);
    let body = conversions::batch_body(
        Ref::Value(op.op.operands@[0]),
        Ref::Value(op.op.operands@[1]),
        Ref::Value(op.op.operands@[2]),
        index.len(),
        params,
        types,
    );
    let rank = lhs.sizes.len() as int;
    let l = op.lhs_shape(m.ctx);
    let r = op.rhs_shape(m.ctx);
    assert(l[rank - 2] matches Dimension::Static(n) ==> lhs.sizes[rank - 2] == n);
    assert(l[rank - 1] matches Dimension::Static(n) ==> lhs.sizes[rank - 1] == n);
    assert(r[rank - 2] matches Dimension::Static(n) ==> rhs.sizes[rank - 2] == n);
    assert(r[rank - 1] matches Dimension::Static(n) ==> rhs.sizes[rank - 1] == n);
    assert(outer[rank - 2] == Runtime::Int(rows(lhs)));
    assert(outer[rank - 1] == Runtime::Int(columns(lhs)));
    assert(outer[2 * rank - 2] == Runtime::Int(rows(rhs)));
    assert(outer[2 * rank - 1] == Runtime::Int(columns(rhs)));
    assert(m.shape_of(types.lhs) == seq![l[rank - 2], l[rank - 1]]);
    assert(l[rank - 1] == r[rank - 2]);
    assert(m.shape_of(types.rhs) == seq![r[rank - 2], r[rank - 1]]);
    assert(m.shape_of(types.accum) == seq![l[rank - 2], r[rank - 1]]);
    let r0 = m.body(outer, index, memory, body, 0).0;
    m.lemma_body_step(outer, index, memory, body, 1);
    lemma_size_param(m, outer, index, r0, l[rank - 2], rank - 2, rows(lhs));
    lemma_size_param(m, outer, index, r0, l[rank - 1], rank - 1, columns(lhs));
    lemma_matrix_view(
        m,
        outer,
        index,
        r0,
        memory,
        op.op.operands@[0],
        params.rows,
        params.lhs_inner,
    );
    let r1 = m.body(outer, index, memory, body, 1).0;
    m.lemma_body_step(outer, index, memory, body, 2);
    lemma_size_param(m, outer, index, r1, r[rank - 2], 2 * rank - 2, rows(rhs));
    lemma_size_param(m, outer, index, r1, r[rank - 1], 2 * rank - 1, columns(rhs));
    lemma_matrix_view(
        m,
        outer,
        index,
        r1,
        memory,
        op.op.operands@[1],
        params.rhs_inner,
        params.columns,
    );
    let r2 = m.body(outer, index, memory, body, 2).0;
    m.lemma_body_step(outer, index, memory, body, 3);
    lemma_size_param(m, outer, index, r2, l[rank - 2], rank - 2, rows(accum));
    lemma_size_param(m, outer, index, r2, r[rank - 1], 2 * rank - 1, columns(accum));
    lemma_matrix_view(
        m,
        outer,
        index,
        r2,
        memory,
        op.op.operands@[2],
        params.rows,
        params.columns,
    );
    let r3 = m.body(outer, index, memory, body, 3).0;
    m.lemma_body_step(outer, index, memory, body, 4);
    lemma_matrix_sizes(
        m,
        outer,
        index,
        r3,
        l[rank - 2],
        rank - 2,
        rows(lhs),
        l[rank - 1],
        rank - 1,
        columns(lhs),
    );
    assert(m.body_step(outer, index, r3, memory, body[3]) == (
        Runtime::Desc(matrix(lhs, index)),
        memory,
    )) by {
        reveal(Machine::body_step);
    }
    let r4 = m.body(outer, index, memory, body, 4).0;
    m.lemma_body_step(outer, index, memory, body, 5);
    lemma_matrix_sizes(
        m,
        outer,
        index,
        r4,
        r[rank - 2],
        2 * rank - 2,
        rows(rhs),
        r[rank - 1],
        2 * rank - 1,
        columns(rhs),
    );
    assert(m.body_step(outer, index, r4, memory, body[4]) == (
        Runtime::Desc(matrix(rhs, index)),
        memory,
    )) by {
        reveal(Machine::body_step);
    }
    let r5 = m.body(outer, index, memory, body, 5).0;
    m.lemma_body_step(outer, index, memory, body, 6);
    lemma_matrix_sizes(
        m,
        outer,
        index,
        r5,
        l[rank - 2],
        rank - 2,
        rows(accum),
        r[rank - 1],
        2 * rank - 1,
        columns(accum),
    );
    assert(m.body_step(outer, index, r5, memory, body[5]) == (
        Runtime::Desc(matrix(accum, index)),
        memory,
    )) by {
        reveal(Machine::body_step);
    }
    let r6 = m.body(outer, index, memory, body, 6).0;
    m.lemma_body_step(outer, index, memory, body, 7);
    assert(r6[3] == Runtime::Desc(matrix(lhs, index)));
    assert(r6[4] == Runtime::Desc(matrix(rhs, index)));
    assert(r6[5] == Runtime::Desc(matrix(accum, index)));
    assert(m.body_step(outer, index, r6, memory, body[6]).1 == m.multiplied(
        matrix(accum, index),
        matrix(lhs, index),
        matrix(rhs, index),
        memory,
    )) by {
        reveal(Machine::body_step);
    }
}

/// The first `n` rounds of the loop multiply the first `n` pairs of matrices.
proof fn lemma_batch_rounds(
    op: BatchMatMulOp,
    m: Machine,
    outer: Seq<Runtime>,
    memory: Memory,
    accum: Desc,
    lhs: Desc,
    rhs: Desc,
    n: nat,
)
    requires
        op.operands_converted(m.ctx),
        op.has_matrix_types(m.ctx),
        2 * op.lhs_shape(m.ctx).len() + 3 <= usize::MAX,
        batch_operands(op, m, accum, lhs, rhs),
        lhs.sizes.len() > 2,
        batch_multipliable(accum, lhs, rhs),
        matrices_contiguous(accum),
        matrices_contiguous(lhs),
        matrices_contiguous(rhs),
        sizes_known(outer, lhs, rhs),
        n <= row_major::product(batch_sizes(lhs)),
    ensures
        ({
            let body = conversions::batch_body(
                Ref::Value(op.op.operands@[0]),
                Ref::Value(op.op.operands@[1]),
                Ref::Value(op.op.operands@[2]),
                (lhs.sizes.len() - 2) as nat,
                op.matrix_params(m.ctx),
                op.matrix_types(m.ctx),
            );
            batch_done(
                m,
                accum,
                lhs,
                rhs,
                memory,
                m.rounds(outer, batch_sizes(lhs), memory, body, n),
                n,
            )
        }),
    decreases n,
{
    if n > 0 {
        let last = (n - 1) as nat;
        let body = conversions::batch_body(
            Ref::Value(op.op.operands@[0]),
            Ref::Value(op.op.operands@[1]),
            Ref::Value(op.op.operands@[2]),
            (lhs.sizes.len() - 2) as nat,
            op.matrix_params(m.ctx),
            op.matrix_types(m.ctx),
        );
        lemma_batch_rounds(op, m, outer, memory, accum, lhs, rhs, last);
        let before = m.rounds(outer, batch_sizes(lhs), memory, body, last);
        let index = row_major::delinearize(batch_sizes(lhs), last);
        row_major::lemma_delinearize(batch_sizes(lhs), last);
        lemma_batch_body(op, m, outer, index, before, accum, lhs, rhs);
        lemma_batch_step(m, accum, lhs, rhs, memory, before, last);
    }
}

/// The first steps of the plan give the sizes of both factors.
proof fn lemma_size_steps(
    op: BatchMatMulOp,
    m: Machine,
    memory: Memory,
    steps: Seq<StepView>,
    accum: Desc,
    lhs: Desc,
    rhs: Desc,
    n: nat,
)
    requires
        op.operands_converted(m.ctx),
        batch_operands(op, m, accum, lhs, rhs),
        2 * op.lhs_shape(m.ctx).len() + 3 <= usize::MAX,
        n <= 2 * lhs.sizes.len(),
        rhs.sizes.len() == lhs.sizes.len(),
        steps.len() >= 2 * lhs.sizes.len(),
        steps.take((2 * lhs.sizes.len()) as int) == op.size_steps(m.ctx),
    ensures
        ({
            let (results, after) = m.run(memory, steps, n);
            &&& after == memory
            &&& results.len() == n
            &&& forall|i: int|
                0 <= i < n ==> #[trigger] results[i] == Runtime::Int(
                    if i < lhs.sizes.len() {
                        lhs.sizes[i]
                    } else {
                        rhs.sizes[i - lhs.sizes.len()]
                    },
                )
        }),
    decreases n,
{
    if n > 0 {
        let last = (n - 1) as nat;
        let rank = lhs.sizes.len() as int;
        lemma_size_steps(op, m, memory, steps, accum, lhs, rhs, last);
        m.lemma_run_step(memory, steps, n);
        let results = m.run(memory, steps, last).0;
        assert(steps[n - 1] == steps.take(2 * rank)[n - 1]);
        let l = op.lhs_shape(m.ctx);
        let r = op.rhs_shape(m.ctx);
        if n - 1 < rank {
            assert(l[n - 1] matches Dimension::Static(size) ==> lhs.sizes[n - 1] == size);
            assert(m.step(results, memory, steps[n - 1]) == (
                Runtime::Int(lhs.sizes[n - 1]),
                memory,
            )) by {
                reveal(Machine::step);
            }
        } else {
            let d = n - 1 - rank;
            assert(r[d] matches Dimension::Static(size) ==> rhs.sizes[d] == size);
            assert(m.step(results, memory, steps[n - 1]) == (Runtime::Int(rhs.sizes[d]), memory))
                by {
                reveal(Machine::step);
            }
        }
    }
}

proof fn lemma_single_product(
    op: BatchMatMulOp,
    m: Machine,
    memory: Memory,
    accum: Desc,
    lhs: Desc,
    rhs: Desc,
)
    requires
        op.operands_converted(m.ctx),
        2 * op.lhs_shape(m.ctx).len() + 3 <= usize::MAX,
        batch_operands(op, m, accum, lhs, rhs),
        batch_multipliable(accum, lhs, rhs),
        lhs.sizes.len() == 2,
    ensures
        batch_done(
            m,
            accum,
            lhs,
            rhs,
            memory,
            m.memory_after(memory, op.bufferized(m.ctx).steps),
            row_major::product(batch_sizes(lhs)),
        ),
{
    let steps = op.bufferized(m.ctx).steps;
    let rank = lhs.sizes.len();
    assert(steps.take((2 * rank) as int) =~= op.size_steps(m.ctx));
    lemma_size_steps(op, m, memory, steps, accum, lhs, rhs, 2 * rank);
    let sizes = m.run(memory, steps, 2 * rank).0;
    m.lemma_run_step(memory, steps, 2 * rank + 1);
    let none = Seq::<nat>::empty();
    assert(batch_sizes(lhs) =~= none);
    assert(semantics::multipliable(accum, lhs, rhs)) by {
        assert(batch_sizes(lhs) =~= none);
        assert(accum.sizes =~= semantics::at(rows(lhs), columns(rhs)));
        assert(lhs.sizes =~= seq![accum.sizes[0], lhs.sizes[1]]);
        assert(rhs.sizes =~= seq![lhs.sizes[1], accum.sizes[1]]);
    }
    semantics::law_mat_mul(m, accum, lhs, rhs, memory);
    assert(m.step(sizes, memory, steps[4]).1 == m.multiplied(accum, lhs, rhs, memory)) by {
        reveal(Machine::step);
    }
    let after = m.memory_after(memory, steps);
    assert forall|batch: Seq<nat>, row: nat, column: nat|
        row_major::in_bounds(batch_sizes(lhs), batch) && row < rows(lhs) && column < columns(
            rhs,
        ) implies after[#[trigger] accum.address(batch_at(batch, row, column))]
        == batch_element(m, accum, lhs, rhs, memory, batch, row, column) by {
        assert(batch =~= none);
        assert(batch_at(batch, row, column) =~= semantics::at(row, column));
        let row1 = |k: nat| memory[lhs.address(semantics::at(row, k))];
        let column1 = |k: nat| memory[rhs.address(semantics::at(k, column))];
        let row2 = |k: nat| memory[lhs.address(batch_at(batch, row, k))];
        let column2 = |k: nat| memory[rhs.address(batch_at(batch, k, column))];
        assert forall|k: nat| k < columns(lhs) implies #[trigger] row1(k) == row2(k) by {
            assert(batch_at(batch, row, k) =~= semantics::at(row, k));
        }
        assert forall|k: nat| k < columns(lhs) implies #[trigger] column1(k) == column2(k) by {
            assert(batch_at(batch, k, column) =~= semantics::at(k, column));
        }
        lemma_sum_same(
            m.element_wise(),
            memory[accum.address(semantics::at(row, column))],
            row1,
            column1,
            row2,
            column2,
            columns(lhs),
        );
        assert(after[accum.address(semantics::at(row, column))]
            == semantics::product_element(
            m.element_wise(),
            accum,
            lhs,
            rhs,
            memory,
            row,
            column,
            columns(lhs),
        ));
    }
}

#[verifier::rlimit(40)]
proof fn lemma_batch_of_products(
    op: BatchMatMulOp,
    m: Machine,
    memory: Memory,
    accum: Desc,
    lhs: Desc,
    rhs: Desc,
)
    requires
        op.operands_converted(m.ctx),
        op.has_matrix_types(m.ctx),
        2 * op.lhs_shape(m.ctx).len() + 3 <= usize::MAX,
        batch_operands(op, m, accum, lhs, rhs),
        batch_multipliable(accum, lhs, rhs),
        lhs.sizes.len() > 2,
        matrices_contiguous(accum),
        matrices_contiguous(lhs),
        matrices_contiguous(rhs),
    ensures
        batch_done(
            m,
            accum,
            lhs,
            rhs,
            memory,
            m.memory_after(memory, op.bufferized(m.ctx).steps),
            row_major::product(batch_sizes(lhs)),
        ),
{
    let steps = op.bufferized(m.ctx).steps;
    let rank = lhs.sizes.len();
    assert(steps.take((2 * rank) as int) =~= op.size_steps(m.ctx));
    lemma_size_steps(op, m, memory, steps, accum, lhs, rhs, 2 * rank);
    let sizes = m.run(memory, steps, 2 * rank).0;
    m.lemma_run_step(memory, steps, 2 * rank + 1);
    let batch_rank = (rank - 2) as nat;
    let total = row_major::product(batch_sizes(lhs));
    assert(m.step(sizes, memory, steps[(2 * rank) as int]) == (Runtime::Int(0), memory)) by {
        reveal(Machine::step);
    }
    let with_zero = m.run(memory, steps, 2 * rank + 1).0;
    m.lemma_run_step(memory, steps, 2 * rank + 2);
    assert(m.step(with_zero, memory, steps[(2 * rank + 1) as int]) == (Runtime::Int(1), memory)) by {
        reveal(Machine::step);
    }
    let outer = m.run(memory, steps, 2 * rank + 2).0;
    assert(outer[(2 * rank) as int] == Runtime::Int(0));
    assert(outer[(2 * rank + 1) as int] == Runtime::Int(1));
    assert forall|i: int| 0 <= i < 2 * rank implies #[trigger] outer[i] == sizes[i] by {
        assert(with_zero[i] == sizes[i]);
    }
    assert(sizes_known(outer, lhs, rhs));
    let upper = Seq::new(batch_rank, |i: int| Ref::Step(i as usize));
    assert(m.ints(outer, upper) =~= batch_sizes(lhs));
    m.lemma_run_step(memory, steps, 2 * rank + 3);
    let body = conversions::batch_body(
        Ref::Value(op.op.operands@[0]),
        Ref::Value(op.op.operands@[1]),
        Ref::Value(op.op.operands@[2]),
        batch_rank,
        op.matrix_params(m.ctx),
        op.matrix_types(m.ctx),
    );
    assert(m.step(outer, memory, steps[(2 * rank + 2) as int]).1 == m.rounds(
        outer,
        batch_sizes(lhs),
        memory,
        body,
        total,
    )) by {
        reveal(Machine::step);
    }
    lemma_batch_rounds(op, m, outer, memory, accum, lhs, rhs, total);
}

/// Running a product of batches gives, at each index of the batch, row and column, the
/// element of the accumulator plus the sum over `k` of `lhs[.., row, k] * rhs[.., k, column]`,
/// and leaves the rest of memory as it is. In a batch with dimensions of its own, the elements
/// of each matrix lie one after the other, and the inner dimension of the factors is static in
/// both or dynamic in both.
pub proof fn law_batch_mat_mul_runs(
    op: BatchMatMulOp,
    m: Machine,
    memory: Memory,
    accum: Desc,
    lhs: Desc,
    rhs: Desc,
)
    requires
        op.operands_converted(m.ctx),
        op.lhs_shape(m.ctx).len() > 2 ==> op.has_matrix_types(m.ctx) && op.inner_alike(m.ctx),
        2 * op.lhs_shape(m.ctx).len() + 3 <= usize::MAX,
        (m.values)(op.op.operands@[0]) == Runtime::Desc(lhs),
        (m.values)(op.op.operands@[1]) == Runtime::Desc(rhs),
        (m.values)(op.op.operands@[2]) == Runtime::Desc(accum),
        fits(op.lhs_shape(m.ctx), lhs.sizes),
        fits(op.rhs_shape(m.ctx), rhs.sizes),
        batch_multipliable(accum, lhs, rhs),
        lhs.sizes.len() > 2 ==> matrices_contiguous(accum) && matrices_contiguous(lhs)
            && matrices_contiguous(rhs),
    ensures
        ({
            let after = m.memory_after(memory, op.bufferized(m.ctx).steps);
            &&& forall|batch: Seq<nat>, row: nat, column: nat|
                row_major::in_bounds(batch_sizes(lhs), batch) && row < rows(lhs) && column
                    < columns(rhs) ==> after[#[trigger] accum.address(
                    batch_at(batch, row, column),
                )] == batch_element(m, accum, lhs, rhs, memory, batch, row, column)
            &&& forall|address: int|
                accum.avoids(address) ==> #[trigger] after[address] == memory[address]
        }),
{
    if lhs.sizes.len() == 2 {
        lemma_single_product(op, m, memory, accum, lhs, rhs);
    } else {
        lemma_batch_of_products(op, m, memory, accum, lhs, rhs);
    }
    let after = m.memory_after(memory, op.bufferized(m.ctx).steps);
    assert forall|batch: Seq<nat>, row: nat, column: nat|
        row_major::in_bounds(batch_sizes(lhs), batch) && row < rows(lhs) && column < columns(
            rhs,
        ) implies after[#[trigger] accum.address(batch_at(batch, row, column))]
        == batch_element(m, accum, lhs, rhs, memory, batch, row, column) by {
        row_major::lemma_linearize(batch_sizes(lhs), batch);
    }
}

// Copies
/// Asking a memref for its sizes, after some steps.
#[verifier::rlimit(60)]
proof fn lemma_dim_steps(
    m: Machine,
    memory: Memory,
    start: Seq<StepView>,
    value: Value,
    dims: Seq<int>,
    n: nat,
)
    requires
        (m.values)(value) is Desc,
        n <= dims.len(),
        start.len() + 2 * dims.len() <= usize::MAX,
        forall|i: int| 0 <= i < dims.len() ==> 0 <= #[trigger] dims[i] <= usize::MAX,
    ensures
        ({
            let (steps, sizes) = bufferize::dim_steps(start, Ref::Value(value), dims, n);
            &&& steps.len() == start.len() + 2 * n
            &&& semantics::begins_with(steps, start)
            &&& m.memory_after(memory, steps) == m.memory_after(memory, start)
            &&& sizes.len() == n
            &&& forall|i: int|
                0 <= i < n ==> semantics::settled(#[trigger] sizes[i], steps.len()) && m.get(
                    m.results(memory, steps),
                    sizes[i],
                ) == Runtime::Int((m.values)(value)->Desc_0.sizes[dims[i]])
        }),
    decreases n,
{
    let d = (m.values)(value)->Desc_0;
    let now = m.memory_after(memory, start);
    let (steps, sizes) = bufferize::dim_steps(start, Ref::Value(value), dims, n);
    if n == 0 {
        assert(steps.take(start.len() as int) =~= start);
    } else {
        let last = (n - 1) as nat;
        lemma_dim_steps(m, memory, start, value, dims, last);
        let (before, sizes_before) = bufferize::dim_steps(start, Ref::Value(value), dims, last);
        let constant = StepOf::IndexConstant(dims[n - 1] as usize);
        let dim = StepOf::Dim {
            memref: Ref::Value(value),
            at: Ref::Step(before.len() as usize),
        };
        assert(0 <= dims[n - 1] <= usize::MAX);
        m.lemma_run_push(memory, before, constant);
        let r0 = m.results(memory, before);
        assert(m.step(r0, now, constant) == (Runtime::Int(dims[n - 1] as nat), now)) by {
            reveal(Machine::step);
        }
        let middle = before.push(constant);
        assert(steps == middle.push(dim));
        m.lemma_run_push(memory, middle, dim);
        let r1 = m.results(memory, middle);
        assert(m.step(r1, now, dim) == (Runtime::Int(d.sizes[dims[n - 1]]), now)) by {
            reveal(Machine::step);
        }
        assert(semantics::begins_with(steps, before)) by {
            assert(steps.take(before.len() as int) =~= before);
        }
        assert(steps.take(start.len() as int) =~= before.take(start.len() as int));
        let results = m.results(memory, steps);
        assert forall|i: int| 0 <= i < n implies semantics::settled(
            #[trigger] sizes[i],
            steps.len(),
        ) && m.get(results, sizes[i]) == Runtime::Int(d.sizes[dims[i]]) by {
            if i < last {
                assert(sizes[i] == sizes_before[i]);
                assert(semantics::settled(sizes_before[i], before.len()));
                m.lemma_settled(memory, before, steps, sizes_before[i]);
            }
        }
    }
}

/// The operand is the memref `source`, and the sizes that the operation knows are its sizes.
pub open spec fn copyable(
    m: Machine,
    operand: Value,
    dynamic: Option<Seq<Value>>,
    source: Desc,
) -> bool {
    &&& m.ctx.as_memref(operand.ty) is Some
    &&& (m.values)(operand) == Runtime::Desc(source)
    &&& fits(m.ctx.as_memref(operand.ty)->Some_0.shape, source.sizes)
    &&& source.sizes.len() <= usize::MAX
    &&& dynamic matches Some(values) ==> lowering_laws::are_ints(m, values)
        && lowering_laws::ints_of(m, values) == dynamic_sizes(
        m.ctx.as_memref(operand.ty)->Some_0.shape,
        source.sizes,
    )
}

/// Copying an operand, after some steps.
proof fn lemma_copy_steps(
    m: Machine,
    memory: Memory,
    start: Seq<StepView>,
    operand: Value,
    dynamic: Option<Seq<Value>>,
    source: Desc,
)
    requires
        copyable(m, operand, dynamic, source),
        bufferize::copy_steps(start, m.ctx, operand, dynamic).0.len() <= usize::MAX,
    ensures
        ({
            let (steps, buffer) = bufferize::copy_steps(start, m.ctx, operand, dynamic);
            let copy = allocated(m, (steps.len() - 2) as nat, operand.ty, source.sizes);
            &&& steps.len() >= start.len() + 2
            &&& semantics::begins_with(steps, start)
            &&& semantics::settled(buffer, steps.len())
            &&& m.get(m.results(memory, steps), buffer) == Runtime::Desc(copy)
            &&& m.memory_after(memory, steps) == semantics::copied(
                copy,
                source,
                m.memory_after(memory, start),
            )
        }),
{
    let shape = m.ctx.as_memref(operand.ty)->Some_0.shape;
    let now = m.memory_after(memory, start);
    let (steps, buffer) = bufferize::copy_steps(start, m.ctx, operand, dynamic);
    let copy = allocated(m, (steps.len() - 2) as nat, operand.ty, source.sizes);
    let (before, sizes) = known_sizes(start, m.ctx, operand, dynamic);
    lemma_filled_fits(shape, source.sizes);
    lemma_known_sizes(m, memory, start, operand, dynamic, source);
    let alloc = StepOf::Alloc { ty: operand.ty, dynamic: sizes };
    let middle = before.push(alloc);
    let copying = StepOf::Copy { destination: buffer, source: Ref::Value(operand) };
    assert(steps == middle.push(copying));
    m.lemma_run_push(memory, before, alloc);
    let r0 = m.results(memory, before);
    assert(m.step(r0, now, alloc) == (Runtime::Desc(copy), now)) by {
        reveal(Machine::step);
    }
    m.lemma_run_push(memory, middle, copying);
    let r1 = m.results(memory, middle);
    assert(m.desc(r1, buffer) == copy);
    assert(m.step(r1, now, copying).1 == semantics::copied(copy, source, now)) by {
        reveal(Machine::step);
    }
    assert(steps.take(start.len() as int) =~= before.take(start.len() as int));
}

/// The first steps of a copy, and the sizes of the dynamic dimensions.
spec fn known_sizes(
    start: Seq<StepView>,
    ctx: Context,
    operand: Value,
    dynamic: Option<Seq<Value>>,
) -> (Seq<StepView>, Seq<Ref>) {
    let dims = conversions::dynamic_dims(ctx.as_memref(operand.ty)->Some_0.shape);
    match dynamic {
        Some(values) => (start, plan::value_refs(values)),
        None => bufferize::dim_steps(start, Ref::Value(operand), dims, dims.len()),
    }
}

proof fn lemma_known_sizes(
    m: Machine,
    memory: Memory,
    start: Seq<StepView>,
    operand: Value,
    dynamic: Option<Seq<Value>>,
    source: Desc,
)
    requires
        copyable(m, operand, dynamic, source),
        bufferize::copy_steps(start, m.ctx, operand, dynamic).0.len() <= usize::MAX,
    ensures
        ({
            let (before, sizes) = known_sizes(start, m.ctx, operand, dynamic);
            &&& before.len() >= start.len()
            &&& semantics::begins_with(before, start)
            &&& m.memory_after(memory, before) == m.memory_after(memory, start)
            &&& m.ints(m.results(memory, before), sizes) == dynamic_sizes(
                m.ctx.as_memref(operand.ty)->Some_0.shape,
                source.sizes,
            )
        }),
{
    let shape = m.ctx.as_memref(operand.ty)->Some_0.shape;
    let dims = conversions::dynamic_dims(shape);
    let (before, sizes) = known_sizes(start, m.ctx, operand, dynamic);
    lemma_dynamic_dims(shape);
    if dynamic is None {
        lemma_dim_steps_len(start, Ref::Value(operand), dims, dims.len());
        lemma_dim_steps(m, memory, start, operand, dims, dims.len());
    } else {
        assert(start.take(start.len() as int) =~= start);
    }
    assert(m.ints(m.results(memory, before), sizes) =~= dynamic_sizes(shape, source.sizes));
}

proof fn lemma_dim_steps_len(start: Seq<StepView>, memref: Ref, dims: Seq<int>, n: nat)
    ensures
        bufferize::dim_steps(start, memref, dims, n).0.len() == start.len() + 2 * n,
    decreases n,
{
    if n > 0 {
        lemma_dim_steps_len(start, memref, dims, (n - 1) as nat);
    }
}

/// The new memref of operand `i`, where some operands are copied one after the other.
pub open spec fn copy_of(
    m: Machine,
    needs_copy: spec_fn(int) -> bool,
    operands: Seq<Value>,
    dynamic: spec_fn(int) -> Option<Seq<Value>>,
    sources: Seq<Desc>,
    i: int,
) -> Desc {
    let steps = bufferize::copied_operands(
        needs_copy,
        m.ctx,
        operands,
        dynamic,
        (i + 1) as nat,
    ).0;
    allocated(m, (steps.len() - 2) as nat, operands[i].ty, sources[i].sizes)
}

/// Each new memref lies apart from the other ones, and from the operands that are copied.
pub open spec fn copies_apart(
    m: Machine,
    needs_copy: spec_fn(int) -> bool,
    operands: Seq<Value>,
    dynamic: spec_fn(int) -> Option<Seq<Value>>,
    sources: Seq<Desc>,
    n: nat,
) -> bool {
    forall|i: int, j: int|
        0 <= i < n && 0 <= j < n && #[trigger] needs_copy(i) && #[trigger] needs_copy(j) ==> {
            let copy = copy_of(m, needs_copy, operands, dynamic, sources, i);
            &&& copy.disjoint(sources[j])
            &&& i != j ==> copy.disjoint(
                copy_of(m, needs_copy, operands, dynamic, sources, j),
            )
        }
}

/// Running the copies of operands gives each of them a new memref with the same sizes and
/// elements, leaves the operands that need no copy in place, and leaves the rest of memory, the
/// operands included, as it is.
pub proof fn law_operand_copies_run(
    m: Machine,
    memory: Memory,
    needs_copy: spec_fn(int) -> bool,
    operands: Seq<Value>,
    dynamic: spec_fn(int) -> Option<Seq<Value>>,
    sources: Seq<Desc>,
    n: nat,
)
    requires
        n <= operands.len() == sources.len(),
        bufferize::copied_operands(needs_copy, m.ctx, operands, dynamic, n).0.len() <= usize::MAX,
        forall|i: int|
            0 <= i < n && #[trigger] needs_copy(i) ==> copyable(
                m,
                operands[i],
                dynamic(i),
                sources[i],
            ),
        copies_apart(m, needs_copy, operands, dynamic, sources, n),
    ensures
        ({
            let (steps, refs) = bufferize::copied_operands(
                needs_copy,
                m.ctx,
                operands,
                dynamic,
                n,
            );
            let results = m.results(memory, steps);
            let after = m.memory_after(memory, steps);
            &&& refs.len() == n
            &&& forall|i: int|
                0 <= i < n ==> semantics::settled(#[trigger] refs[i], steps.len()) && m.get(
                    results,
                    refs[i],
                ) == if needs_copy(i) {
                    Runtime::Desc(copy_of(m, needs_copy, operands, dynamic, sources, i))
                } else {
                    (m.values)(operands[i])
                }
            &&& forall|i: int, lin: nat|
                0 <= i < n && needs_copy(i) && lin < sources[i].count() ==> after[#[trigger] copy_of(
                    m,
                    needs_copy,
                    operands,
                    dynamic,
                    sources,
                    i,
                ).nth(lin)] == memory[sources[i].nth(lin)]
            &&& forall|i: int, lin: nat|
                0 <= i < n && needs_copy(i) && lin < sources[i].count()
                    ==> after[#[trigger] sources[i].nth(lin)] == memory[sources[i].nth(lin)]
            &&& forall|address: int|
                (forall|i: int|
                    0 <= i < n && #[trigger] needs_copy(i) ==> copy_of(
                        m,
                        needs_copy,
                        operands,
                        dynamic,
                        sources,
                        i,
                    ).avoids(address)) ==> #[trigger] after[address] == memory[address]
        }),
    decreases n,
{
    let (steps, refs) = bufferize::copied_operands(needs_copy, m.ctx, operands, dynamic, n);
    let after = m.memory_after(memory, steps);
    if n > 0 {
        let k = n - 1;
        let (before, refs_before) = bufferize::copied_operands(
            needs_copy,
            m.ctx,
            operands,
            dynamic,
            k as nat,
        );
        if needs_copy(k) {
            lemma_copy_steps_longer(before, m.ctx, operands[k], dynamic(k));
        }
        law_operand_copies_run(m, memory, needs_copy, operands, dynamic, sources, k as nat);
        let now = m.memory_after(memory, before);
        if needs_copy(k) {
            let source = sources[k];
            let copy = copy_of(m, needs_copy, operands, dynamic, sources, k);
            lemma_copy_steps(m, memory, before, operands[k], dynamic(k), source);
            assert(copy.disjoint(source));
            semantics::law_contiguous_is_injective(copy);
            lemma_disjoint_keeps_apart(copy, source);
            semantics::law_copy(copy, source, now);
            assert forall|i: int| 0 <= i < n implies semantics::settled(
                #[trigger] refs[i],
                steps.len(),
            ) && m.get(m.results(memory, steps), refs[i]) == if needs_copy(i) {
                Runtime::Desc(copy_of(m, needs_copy, operands, dynamic, sources, i))
            } else {
                (m.values)(operands[i])
            } by {
                if i < k {
                    assert(refs[i] == refs_before[i]);
                    m.lemma_settled(memory, before, steps, refs_before[i]);
                }
            }
            assert forall|i: int| 0 <= i < k && #[trigger] needs_copy(i) implies copy_of(
                m,
                needs_copy,
                operands,
                dynamic,
                sources,
                i,
            ).disjoint(source) by {
                assert(needs_copy(k));
            }
            // The source has not been written so far.
            assert forall|lin: nat| lin < source.count() implies now[#[trigger] source.nth(lin)]
                == memory[source.nth(lin)] by {
                assert forall|i: int| 0 <= i < k && #[trigger] needs_copy(i) implies copy_of(
                    m,
                    needs_copy,
                    operands,
                    dynamic,
                    sources,
                    i,
                ).avoids(source.nth(lin)) by {
                    lemma_disjoint_avoids(
                        copy_of(m, needs_copy, operands, dynamic, sources, i),
                        source,
                        lin,
                    );
                }
            }
            assert forall|i: int, lin: nat|
                0 <= i < n && needs_copy(i) && lin < sources[i].count() implies after[
                #[trigger] copy_of(m, needs_copy, operands, dynamic, sources, i).nth(lin)]
                == memory[sources[i].nth(lin)] by {
                let other = copy_of(m, needs_copy, operands, dynamic, sources, i);
                if i < k {
                    assert(needs_copy(k));
                    assert(copy.disjoint(other));
                    lemma_disjoint_avoids(copy, other, lin);
                    assert(after[other.nth(lin)] == now[other.nth(lin)]);
                }
            }
            assert forall|i: int, lin: nat|
                0 <= i < n && needs_copy(i) && lin < sources[i].count() implies after[
                #[trigger] sources[i].nth(lin)] == memory[sources[i].nth(lin)] by {
                assert(needs_copy(k));
                assert(copy.disjoint(sources[i]));
                lemma_disjoint_avoids(copy, sources[i], lin);
                assert(after[sources[i].nth(lin)] == now[sources[i].nth(lin)]);
            }
            assert forall|address: int|
                (forall|i: int|
                    0 <= i < n && #[trigger] needs_copy(i) ==> copy_of(
                        m,
                        needs_copy,
                        operands,
                        dynamic,
                        sources,
                        i,
                    ).avoids(address)) implies #[trigger] after[address] == memory[address] by {
                assert(needs_copy(k));
                assert(copy.avoids(address));
                assert(now[address] == memory[address]);
            }
        } else {
            assert forall|i: int| 0 <= i < n implies semantics::settled(
                #[trigger] refs[i],
                steps.len(),
            ) && m.get(m.results(memory, steps), refs[i]) == if needs_copy(i) {
                Runtime::Desc(copy_of(m, needs_copy, operands, dynamic, sources, i))
            } else {
                (m.values)(operands[i])
            } by {
                if i < k {
                    assert(refs[i] == refs_before[i]);
                }
            }
        }
    }
}

proof fn lemma_copy_steps_longer(
    start: Seq<StepView>,
    ctx: Context,
    operand: Value,
    dynamic: Option<Seq<Value>>,
)
    ensures
        bufferize::copy_steps(start, ctx, operand, dynamic).0.len() >= start.len() + 2,
{
    let dims = conversions::dynamic_dims(ctx.as_memref(operand.ty)->Some_0.shape);
    lemma_dim_steps_len(start, Ref::Value(operand), dims, dims.len());
}

proof fn lemma_disjoint_avoids(d: Desc, other: Desc, lin: nat)
    requires
        d.disjoint(other),
        lin < other.count(),
    ensures
        d.avoids(other.nth(lin)),
{
    assert forall|a: nat| a < d.count() implies #[trigger] d.nth(a) != other.nth(lin) by {
        assert(other.avoids(d.nth(a)));
    }
}

} // verus!
