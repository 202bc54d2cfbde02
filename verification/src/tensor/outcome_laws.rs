//! What takes the place of the results of operations on tensors, and what recorded allocations
//! call.

use crate::ir::{Context, ForOp, FuncOp, TypeHandle, TypeView};
use crate::memref;
use crate::memref::lowering_laws;
use crate::memref::slices;
use crate::memref::slices::SliceParam;
use crate::memref::type_interfaces;
use crate::memref::type_interfaces::Dimension;
use crate::outcomes;
use crate::outcomes::CallView;
use crate::plan;
use crate::plan::Callee;
use crate::row_major;
use crate::semantics;
use crate::semantics::{Machine, Memory, Runtime};
use crate::tensor::bufferize::{DefiningEntity, Use};
use crate::tensor::bufferize_laws;
use crate::tensor::conversions;
use crate::tensor::effects;
use crate::tensor::effects::Effects;
use crate::tensor::op_interfaces::{BufferizableOpInterface, RewriteView};
use crate::tensor::ops::{ExtractOp, ExtractSliceOp, GenerateOp, ReshapeOp};
use crate::tensor::tracked_tmm;
use crate::tensor::tracked_tmm::{TrackedAllocOp, TrackedDeallocOp, TrackedMemoryManagerErr};
use vstd::prelude::*;

verus! {

/// What takes the place of a generated tensor is a new contiguous memref with the sizes of the
/// tensor, whose element at each index is what the region yields for it. The operation knows its
/// dynamic sizes.
pub proof fn law_generate_outcome(op: GenerateOp, m: Machine, memory: Memory, lin: nat)
    requires
        op.ready(m.ctx),
        op.runnable(m),
    ensures
        op.rewritten(m.ctx) matches RewriteView::Replaced(plan) && outcomes::replacements(
            m,
            memory,
            plan,
        )[0] matches Runtime::Desc(res) && res.contiguous() && res.sizes == semantics::filled_sizes(
            m.ctx.as_tensor(op.op.result_types@[0])->Some_0.shape,
            lowering_laws::ints_of(m, op.op.operands@),
        ) && (lin < res.count() ==> m.memory_after(memory, plan.steps)[res.nth(lin)] == (m.region)(
            row_major::delinearize(res.sizes, lin),
        )),
        forall|opd: int|
            #[trigger] op.dynamic_sizes(opd) matches Some(values) && semantics::filled_sizes(
                m.ctx.as_tensor(op.op.result_types@[0])->Some_0.shape,
                lowering_laws::ints_of(m, values),
            ) == outcomes::replacements(m, memory, op.rewritten(m.ctx)->Replaced_0)[0]->Desc_0.sizes,
{
    bufferize_laws::law_generate_runs(op, m, memory);
}

/// What takes the place of an extracted element is the element at the indices.
pub proof fn law_extract_outcome(op: ExtractOp, m: Machine, memory: Memory)
    requires
        op.ready(m.ctx),
        op.runnable(m),
    ensures
        op.rewritten(m.ctx) matches RewriteView::Replaced(plan) && outcomes::replacements(
            m,
            memory,
            plan,
        ) == seq![
            Runtime::Element(
                memory[(m.values)(op.op.operands@[0])->Desc_0.address(
                    lowering_laws::ints_of(m, op.op.operands@.skip(1)),
                )],
            ),
        ],
{
    bufferize_laws::law_extract_runs(op, m, memory);
}

/// What takes the place of an extracted slice has the sizes of the slice, and its element at an
/// index is the element of the source at the offset plus the index times the step.
pub proof fn law_extract_slice_outcome(
    op: ExtractSliceOp,
    m: Machine,
    memory: Memory,
    idxs: Seq<nat>,
)
    requires
        op.ready(m.ctx),
        op.runnable(m),
        idxs.len() == (m.values)(op.op.operands@[0])->Desc_0.sizes.len(),
    ensures
        op.rewritten(m.ctx) matches RewriteView::Replaced(plan) && outcomes::replacements(
            m,
            memory,
            plan,
        )[0] matches Runtime::Desc(view) && view.sizes == lowering_laws::param_values(m, op.sizes())
            && view.address(idxs) == (m.values)(op.op.operands@[0])->Desc_0.address(
            semantics::slice_indices(
                lowering_laws::param_values(m, op.offsets()),
                lowering_laws::param_values(m, op.steps()),
                idxs,
            ),
        ),
{
    let source = (m.values)(op.op.operands@[0])->Desc_0;
    bufferize_laws::law_extract_slice_runs(op, m, memory, source, idxs);
}

/// What takes the place of a reshaped tensor has the sizes of the result type, and holds the
/// elements of the source in the same row-major order.
pub proof fn law_reshape_outcome(op: ReshapeOp, m: Machine, memory: Memory, lin: nat)
    requires
        op.ready(m.ctx),
        op.runnable(m),
        lin < (m.values)(op.op.operands@[0])->Desc_0.count(),
    ensures
        op.rewritten(m.ctx) matches RewriteView::Replaced(plan) && outcomes::replacements(
            m,
            memory,
            plan,
        )[0] matches Runtime::Desc(res) && res.sizes == semantics::filled_sizes(
            m.ctx.as_tensor(op.op.result_types@[0])->Some_0.shape,
            lowering_laws::ints_of(m, op.op.operands@.skip(1)),
        ) && res.nth(lin) == (m.values)(op.op.operands@[0])->Desc_0.nth(lin),
{
    let source = (m.values)(op.op.operands@[0])->Desc_0;
    bufferize_laws::law_reshape_runs(op, m, memory, source, lin);
}

/// A recorded allocation calls `tracked_malloc` once, with the address of the records and as many
/// bytes as the elements need, and is replaced by the contiguous memref at the address that comes
/// back.
pub proof fn law_tracked_alloc_outcome(op: TrackedAllocOp, m: Machine, memory: Memory)
    requires
        op.wf(m.ctx),
        op.memref_tmm_ptr_alloc is Some,
        op.memref_tmm_ptr_alloc->Some_0.0 <= u64::MAX,
        lowering_laws::are_ints(m, op.op.operands@),
        m.ctx.as_memref(op.op.result_types@[0])->Some_0.shape.len() <= usize::MAX,
    ensures
        ({
            let memref = m.ctx.as_memref(op.op.result_types@[0])->Some_0;
            let sizes = semantics::filled_sizes(
                memref.shape,
                lowering_laws::ints_of(m, op.op.operands@),
            );
            let bytes = (m.type_size)(memref.element_type) * row_major::product(sizes);
            let plan = op.lowered(m.ctx);
            let values = outcomes::replacements(m, memory, plan);
            &&& outcomes::calls(
                m,
                m.results(memory, plan.steps),
                plan.steps,
                plan.steps.len(),
            ) == seq![
                CallView {
                    callee: Callee::TrackedMalloc,
                    arguments: seq![
                        Runtime::Ptr(op.memref_tmm_ptr_alloc->Some_0.0 as int),
                        Runtime::Int(bytes),
                    ],
                },
            ]
            &&& values.len() == 1
            &&& values[0] matches Runtime::Desc(d) && d.sizes == sizes && d.contiguous()
                && d.offset == 0 && d.allocated == d.aligned && exists|at: nat|
                d.aligned == #[trigger] (m.malloc)(at, bytes)
        }),
{
    let plan = op.lowered(m.ctx);
    let steps = plan.steps;
    let memref = m.ctx.as_memref(op.op.result_types@[0])->Some_0;
    let dynamic = lowering_laws::ints_of(m, op.op.operands@);
    let sizes = semantics::filled_sizes(memref.shape, dynamic);
    let bytes = (m.type_size)(memref.element_type) * row_major::product(sizes);
    let records = Runtime::Ptr(op.memref_tmm_ptr_alloc->Some_0.0 as int);
    let all = m.results(memory, steps);
    tracked_tmm::law_tracked_alloc_runs(op, m, memory);
    lemma_tracked_arguments(op, m, memory);
    reveal_with_fuel(outcomes::calls, 9);
    let arguments = steps[5]->Call_arguments;
    assert(Seq::new(arguments.len(), |i: int| m.get(all, arguments[i])) =~= seq![
        records,
        Runtime::Int(bytes),
    ]);
    assert(outcomes::calls(m, all, steps, steps.len()) =~= seq![
        CallView { callee: Callee::TrackedMalloc, arguments: seq![records, Runtime::Int(bytes)] },
    ]);
}

proof fn lemma_tracked_arguments(op: TrackedAllocOp, m: Machine, memory: Memory)
    requires
        op.wf(m.ctx),
        op.memref_tmm_ptr_alloc is Some,
        op.memref_tmm_ptr_alloc->Some_0.0 <= u64::MAX,
        lowering_laws::are_ints(m, op.op.operands@),
    ensures
        ({
            let memref = m.ctx.as_memref(op.op.result_types@[0])->Some_0;
            let sizes = semantics::filled_sizes(
                memref.shape,
                lowering_laws::ints_of(m, op.op.operands@),
            );
            let all = m.results(memory, op.lowered(m.ctx).steps);
            &&& all[2] == Runtime::Int(
                (m.type_size)(memref.element_type) * row_major::product(sizes),
            )
            &&& all[4] == Runtime::Ptr(op.memref_tmm_ptr_alloc->Some_0.0 as int)
        }),
{
    let steps = op.lowered(m.ctx).steps;
    let memref = m.ctx.as_memref(op.op.result_types@[0])->Some_0;
    let dynamic = lowering_laws::ints_of(m, op.op.operands@);
    let sizes = semantics::filled_sizes(memref.shape, dynamic);
    let element_size = (m.type_size)(memref.element_type);
    let records = op.memref_tmm_ptr_alloc->Some_0.0;
    let (r0, m0) = m.run(memory, steps, 0);
    assert(m.ints(r0, plan::value_refs(op.op.operands@)) =~= dynamic);
    m.lemma_run_step(memory, steps, 1);
    assert(m.step(r0, m0, steps[0]).0->Desc_0.sizes == sizes) by {
        reveal(Machine::step);
    }
    let (r1, m1) = m.run(memory, steps, 1);
    m.lemma_run_step(memory, steps, 2);
    assert(m.step(r1, m1, steps[1]).0 == Runtime::Int(element_size)) by {
        reveal(Machine::step);
    }
    let (r2, m2) = m.run(memory, steps, 2);
    m.lemma_run_step(memory, steps, 3);
    assert(m.step(r2, m2, steps[2]).0 == Runtime::Int(
        element_size * row_major::product(sizes),
    )) by {
        reveal(Machine::step);
    }
    let (r3, m3) = m.run(memory, steps, 3);
    m.lemma_run_step(memory, steps, 4);
    assert(m.step(r3, m3, steps[3]).0 == Runtime::Int(records as nat)) by {
        reveal(Machine::step);
    }
    let (r4, m4) = m.run(memory, steps, 4);
    m.lemma_run_step(memory, steps, 5);
    assert(m.step(r4, m4, steps[4]).0 == Runtime::Ptr(records as int)) by {
        reveal(Machine::step);
    }
    m.lemma_run_step(memory, steps, 6);
    m.lemma_run_step(memory, steps, 7);
    m.lemma_run_step(memory, steps, 8);
}

/// A recorded deallocation calls `tracked_dealloc` once, with the address of the records and the
/// address that was allocated for the memref, and leaves memory alone.
pub proof fn law_tracked_dealloc_outcome(op: TrackedDeallocOp, m: Machine, memory: Memory)
    requires
        op.wf(),
        op.memref_tmm_ptr_dealloc is Some,
        op.memref_tmm_ptr_dealloc->Some_0.0 <= u64::MAX,
        (m.values)(op.op.operands@[0]) is Desc,
    ensures
        ({
            let steps = op.lowered().steps;
            &&& outcomes::calls(m, m.results(memory, steps), steps, steps.len()) == seq![
                CallView {
                    callee: Callee::TrackedDealloc,
                    arguments: seq![
                        Runtime::Ptr(op.memref_tmm_ptr_dealloc->Some_0.0 as int),
                        Runtime::Ptr((m.values)(op.op.operands@[0])->Desc_0.allocated),
                    ],
                },
            ]
            &&& m.memory_after(memory, steps) == memory
        }),
{
    let steps = op.lowered().steps;
    let address = (m.values)(op.op.operands@[0])->Desc_0.allocated;
    let records = Runtime::Ptr(op.memref_tmm_ptr_dealloc->Some_0.0 as int);
    let number = op.memref_tmm_ptr_dealloc->Some_0.0;
    let (r0, m0) = m.run(memory, steps, 0);
    m.lemma_run_step(memory, steps, 1);
    assert(m.step(r0, m0, steps[0]) == (Runtime::Ptr(address), memory)) by {
        reveal(Machine::step);
    }
    let (r1, m1) = m.run(memory, steps, 1);
    m.lemma_run_step(memory, steps, 2);
    assert(m.step(r1, m1, steps[1]) == (Runtime::Int(number as nat), memory)) by {
        reveal(Machine::step);
    }
    let (r2, m2) = m.run(memory, steps, 2);
    m.lemma_run_step(memory, steps, 3);
    assert(m.step(r2, m2, steps[2]) == (records, memory)) by {
        reveal(Machine::step);
    }
    let (r3, m3) = m.run(memory, steps, 3);
    m.lemma_run_step(memory, steps, 4);
    assert(m.step(r3, m3, steps[3]).1 == memory) by {
        reveal(Machine::step);
    }
    reveal_with_fuel(outcomes::calls, 5);
    let all = m.results(memory, steps);
    let arguments = steps[3]->Call_arguments;
    assert(all[0] == Runtime::Ptr(address));
    assert(all[2] == records);
    assert(Seq::new(arguments.len(), |i: int| m.get(all, arguments[i])) =~= seq![
        records,
        Runtime::Ptr(address),
    ]);
    assert(outcomes::calls(m, all, steps, 4) =~= seq![
        CallView {
            callee: Callee::TrackedDealloc,
            arguments: seq![records, Runtime::Ptr(address)],
        },
    ]);
}

/// A loop shares the buffer of each value that it carries with the result at the same place, in
/// order, and with no other, and gives argument and result the type that the value has. The values
/// are handed over to the loop: it may write to them, and so may its body.
pub proof fn law_loop_carries(op: ForOp, ctx: Context, at: usize, results: Seq<usize>)
    requires
        op.wf(ctx),
        op.op.operands@.len() <= usize::MAX,
        results.len() == op.num_results(),
    ensures
        ({
            let aliases = op.aliases(at, results);
            let carried = op.op.operands@.len() - op.num_bounds;
            &&& results.len() == carried && aliases.len() == carried
            &&& forall|j: int| 0 <= j < carried ==> (#[trigger] aliases[j]).result == results[j]
            &&& forall|j: int|
                0 <= j < carried ==> op.num_bounds <= (#[trigger] aliases[j]).operand.index
                    < op.op.operands@.len()
            &&& forall|i: int, j: int|
                0 <= i < j < carried ==> (#[trigger] aliases[i]).operand.index < (
                #[trigger] aliases[j]).operand.index
            &&& op.rewritten(ctx) matches RewriteView::Retyped { arguments, results: types }
                && arguments.len() == carried && types.len() == carried && forall|j: int|
                0 <= j < carried ==> arguments[j] == op.op.operands@[(
                #[trigger] aliases[j]).operand.index as int].ty && types[j] == arguments[j]
        }),
        forall|definer: DefiningEntity| #[trigger] op.writable(definer),
        forall|opd: int| op.takes_tensor(opd) ==> #[trigger] op.writes(opd),
{
}

/// A reshaped tensor has all elements of its source in every run, so the alias that the operation
/// declares says that the buffers are the same.
pub proof fn law_reshape_alias(
    op: ReshapeOp,
    m: Machine,
    memory: Memory,
    at: usize,
    results: Seq<usize>,
    j: int,
)
    requires
        op.ready(m.ctx),
        op.runnable(m),
        results.len() == 1,
        op.op.operands@.len() <= usize::MAX,
        0 <= j < op.aliases(at, results).len(),
    ensures
        op.rewritten(m.ctx) matches RewriteView::Replaced(plan) && outcomes::replacements(
            m,
            memory,
            plan,
        )[0] matches Runtime::Desc(res) && effects::contains(
            res,
            (m.values)(op.op.operands@[0])->Desc_0,
        ),
        op.aliases(at, results)[j].relation is Equivalent,
        op.aliases(at, results)[j].operand == (Use { op: at, index: 0 }),
{
    op.law_effects(m, memory, at, results);
    assert(op.aliases(at, results)[0].result == results[0]);
}

/// The arguments of a function are handed over to it: it may write to them.
pub proof fn law_function_owns_arguments(op: FuncOp, definer: DefiningEntity)
    ensures
        op.writable(definer),
        op.operands().len() == 0,
{
}

/// A recorded allocation is valid exactly if it has the address of the records, and a size for
/// each dynamic dimension.
pub proof fn law_tracked_alloc_verifies(ctx: Context, op: TrackedAllocOp)
    requires
        op.wf(ctx),
    ensures
        ({
            let count = type_interfaces::dynamic_only(
                ctx.as_memref(op.op.result_types@[0])->0.shape,
            ).len();
            &&& op.verdict(ctx) is Ok <==> op.memref_tmm_ptr_alloc is Some && op.op.operands@.len()
                == count
            &&& op.verdict(ctx) matches Err(
                TrackedMemoryManagerErr::AllocNumDynamicDimsMismatch { expected, got },
            ) ==> expected == count as usize && got == op.op.operands@.len() as usize
                && op.memref_tmm_ptr_alloc is Some
            &&& op.memref_tmm_ptr_alloc is None ==> op.verdict(ctx) == Err::<
                (),
                TrackedMemoryManagerErr,
            >(TrackedMemoryManagerErr::MissingSelfPointerAttr)
        }),
{
    type_interfaces::law_num_dynamic(ctx.as_memref(op.op.result_types@[0])->0.shape);
}

/// The functions that recorded allocations call take an address and a 64-bit number and return an
/// address, and take two addresses and return nothing: what they are called with.
pub proof fn law_tracked_signatures(ctx: Context)
    requires
        ctx.wf(),
        ctx.holds(TypeView::Pointer),
        ctx.holds(TypeView::Void),
        ctx.holds(memref::conversions::word_type()),
    ensures
        tracked_tmm::tracked_malloc_type(ctx) matches TypeView::Function { result, arguments }
            && arguments.len() == 2 && ctx.get(result) is Pointer && ctx.get(arguments[0]) is Pointer
            && ctx.get(arguments[1]) is Integer && ctx.get(arguments[1])->Integer_0.width == 64,
        tracked_tmm::tracked_dealloc_type(ctx) matches TypeView::Function { result, arguments }
            && arguments.len() == 2 && ctx.get(result) is Void && ctx.get(arguments[0]) is Pointer
            && ctx.get(arguments[1]) is Pointer,
{
}

/// The type of a slice can have exactly one list of sizes for each choice of its dynamic sizes:
/// those that its parameters are when the program runs.
pub proof fn law_slice_shape(m: Machine, sizes: Seq<SliceParam>)
    ensures
        type_interfaces::has_sizes(
            slices::slice_shape(sizes),
            lowering_laws::param_values(m, sizes),
        ),
        slices::slice_shape(sizes).len() == sizes.len(),
        forall|i: int|
            0 <= i < sizes.len() ==> (#[trigger] slices::slice_shape(sizes)[i] is Dynamic
                <==> sizes[i] is Dynamic),
{
    let shape = slices::slice_shape(sizes);
    assert forall|i: int| 0 <= i < shape.len() implies type_interfaces::admits(
        #[trigger] shape[i],
        lowering_laws::param_values(m, sizes)[i],
    ) by {}
}

/// The signature of a stored function has a memref for each tensor, with the same element type
/// and shape, and everything else as it is.
pub proof fn law_stored_signature(ctx: Context, signature: TypeView, i: int)
    requires
        ctx.wf(),
        signature is Function,
        0 <= i < signature->Function_arguments.len(),
        conversions::holds_stored(ctx, signature->Function_arguments),
        ctx.holds(memref::stored_as(ctx.get(signature->Function_result))),
    ensures
        conversions::stored_signature(ctx, signature) matches TypeView::Function {
            result,
            arguments,
        } && arguments.len() == signature->Function_arguments.len() && is_storage_of(
            ctx,
            result,
            signature->Function_result,
        ) && is_storage_of(ctx, arguments[i], signature->Function_arguments[i]),
{
    let argument = signature->Function_arguments[i];
    assert(ctx.holds(memref::stored_as(ctx.get(argument))));
}

/// The type is one of memrefs with the elements and shape of a tensor type, or the type itself
/// where that is none of tensors.
pub open spec fn is_storage_of(ctx: Context, stored: TypeHandle, ty: TypeHandle) -> bool {
    match ctx.as_tensor(ty) {
        Some(tensor) => ctx.as_memref(stored) == Some(tensor),
        None => ctx.get(stored) == ctx.get(ty),
    }
}

/// A tensor is stored in a memref with the same element type and shape. Everything else stands
/// for itself, and nothing that is stored is a tensor.
pub proof fn law_storage(ty: TypeView)
    ensures
        ty matches TypeView::RankedTensor { element_type, shape } ==> memref::stored_as(ty)
            matches TypeView::RankedMemref { element_type: e, shape: s } && e == element_type && s
            == shape,
        !(ty is RankedTensor) ==> memref::stored_as(ty) == ty,
        !(memref::stored_as(ty) is RankedTensor),
{
}

/// The memref that an element-wise operation allocates can have exactly those sizes that both
/// operands can have.
pub proof fn law_merged_shape(lhs: Seq<Dimension>, rhs: Seq<Dimension>, sizes: Seq<nat>)
    requires
        lhs.len() == rhs.len(),
        forall|i: int| 0 <= i < lhs.len() ==> type_interfaces::agree(#[trigger] lhs[i], rhs[i]),
    ensures
        type_interfaces::has_sizes(conversions::merged_shape(lhs, rhs), sizes)
            <==> type_interfaces::has_sizes(lhs, sizes) && type_interfaces::has_sizes(rhs, sizes),
{
    let merged = conversions::merged_shape(lhs, rhs);
    assert forall|i: int| 0 <= i < lhs.len() implies (type_interfaces::admits(
        #[trigger] merged[i],
        sizes[i],
    ) <==> type_interfaces::admits(lhs[i], sizes[i]) && type_interfaces::admits(
        rhs[i],
        sizes[i],
    )) by {
        type_interfaces::lemma_agree(lhs[i], rhs[i]);
    }
    if type_interfaces::has_sizes(merged, sizes) {
        assert forall|i: int| 0 <= i < lhs.len() implies type_interfaces::admits(
            #[trigger] lhs[i],
            sizes[i],
        ) by {
            assert(type_interfaces::admits(merged[i], sizes[i]));
        }
        assert forall|i: int| 0 <= i < rhs.len() implies type_interfaces::admits(
            #[trigger] rhs[i],
            sizes[i],
        ) by {
            assert(type_interfaces::admits(merged[i], sizes[i]));
        }
    }
    if type_interfaces::has_sizes(lhs, sizes) && type_interfaces::has_sizes(rhs, sizes) {
        assert forall|i: int| 0 <= i < merged.len() implies type_interfaces::admits(
            #[trigger] merged[i],
            sizes[i],
        ) by {
            assert(type_interfaces::admits(lhs[i], sizes[i]));
            assert(type_interfaces::admits(rhs[i], sizes[i]));
        }
    }
}

/// The sizes that a shape gets from sizes of its dynamic dimensions are sizes of the shape, and have
/// the given ones in the dynamic dimensions, in order.
pub proof fn law_filled_sizes(shape: Seq<Dimension>, dynamic: Seq<nat>)
    requires
        dynamic.len() == type_interfaces::dynamic_only(shape).len(),
    ensures
        ({
            let sizes = semantics::filled_sizes(shape, dynamic);
            &&& type_interfaces::has_sizes(shape, sizes)
            &&& forall|i: int|
                0 <= i < shape.len() && shape[i] is Dynamic ==> #[trigger] sizes[i]
                    == dynamic[type_interfaces::dynamic_only(shape.take(i)).len() as int]
        }),
    decreases shape.len(),
{
    reveal(Seq::filter);
    let sizes = semantics::filled_sizes(shape, dynamic);
    if shape.len() > 0 {
        let init = shape.drop_last();
        let rest = if shape.last() is Dynamic {
            dynamic.drop_last()
        } else {
            dynamic
        };
        law_filled_sizes(init, rest);
        let init_sizes = semantics::filled_sizes(init, rest);
        assert(sizes.drop_last() =~= init_sizes);
        assert forall|i: int| 0 <= i < shape.len() implies type_interfaces::admits(
            #[trigger] shape[i],
            sizes[i],
        ) by {
            if i < init.len() {
                assert(init[i] == shape[i]);
                assert(type_interfaces::admits(init[i], init_sizes[i]));
            }
        }
        assert forall|i: int| 0 <= i < shape.len() && shape[i] is Dynamic implies #[trigger] sizes[i]
            == dynamic[type_interfaces::dynamic_only(shape.take(i)).len() as int] by {
            if i < init.len() {
                assert(init[i] == shape[i]);
                assert(init.take(i) =~= shape.take(i));
                assert(sizes[i] == init_sizes[i]);
                lemma_fewer_dynamic(init, i);
            } else {
                assert(shape.take(i) =~= init);
            }
        }
    }
}

/// There are fewer dynamic dimensions before a dynamic one than in all.
proof fn lemma_fewer_dynamic(shape: Seq<Dimension>, i: int)
    requires
        0 <= i < shape.len(),
        shape[i] is Dynamic,
    ensures
        type_interfaces::dynamic_only(shape.take(i)).len() < type_interfaces::dynamic_only(
            shape,
        ).len(),
    decreases shape.len(),
{
    reveal(Seq::filter);
    let init = shape.drop_last();
    if i < init.len() {
        lemma_fewer_dynamic(init, i);
        assert(init.take(i) =~= shape.take(i));
    } else {
        assert(shape.take(i) =~= init);
    }
}

} // verus!
