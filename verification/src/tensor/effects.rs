//! What operations do to memory when they run, held against what they say of themselves.

use crate::ir::{ForOp, FuncOp, PointerLoadOp, TypeHandle, Value};
use crate::memref;
use crate::memref::lowering_laws;
use crate::memref::slices::SliceParam;
use crate::outcomes;
use crate::plan;
use crate::plan::{ElementWiseKind, PlanView, Ref, ReplacementOf, StepView};
use crate::row_major;
use crate::semantics;
use crate::semantics::{Desc, Machine, Memory, Runtime};
use crate::tensor::bufferize::{Alias, BufferRelation, DefiningEntity};
use crate::tensor::bufferize_laws;
use crate::tensor::conversions;
use crate::tensor::op_interfaces::{BufferizableOpInterface, RewriteView};
use crate::tensor::ops::{
    AddOp, BatchMatMulOp, DivOp, ExtractOp, ExtractSliceOp, GenerateOp, InsertSliceOp, MatMulOp,
    MulOp, ReshapeOp, SubOp,
};
use vstd::prelude::*;

verus! {

/// The memref that a step allocates, if it allocates one.
pub open spec fn allocation(m: Machine, memory: Memory, steps: Seq<StepView>, k: int) -> Option<
    Desc,
> {
    if steps[k] is Alloc {
        Some(m.results(memory, steps)[k]->Desc_0)
    } else {
        None
    }
}

/// No element of a value has the address.
pub open spec fn value_avoids(value: Runtime, address: int) -> bool {
    value matches Runtime::Desc(d) ==> d.avoids(address)
}

/// No operand that the operation says it writes to has an element with the address.
pub open spec fn written_avoid<T: BufferizableOpInterface>(op: T, m: Machine, address: int) -> bool {
    forall|opd: int|
        0 <= opd < op.operands().len() && op.writes(opd) ==> value_avoids(
            (m.values)(#[trigger] op.operands()[opd]),
            address,
        )
}

/// No memref that the plan allocates has an element with the address.
pub open spec fn allocated_avoid(m: Machine, memory: Memory, steps: Seq<StepView>, address: int) -> bool {
    forall|k: int|
        0 <= k < steps.len() ==> (#[trigger] allocation(m, memory, steps, k) matches Some(d)
            ==> d.avoids(address))
}

/// The plan changes no memory but that of the operands that the operation says it writes to,
/// and that of the memrefs that it allocates.
pub open spec fn writes_as_declared<T: BufferizableOpInterface>(
    op: T,
    plan: PlanView,
    m: Machine,
    memory: Memory,
) -> bool {
    forall|address: int|
        written_avoid(op, m, address) && allocated_avoid(m, memory, plan.steps, address)
            ==> #[trigger] m.memory_after(memory, plan.steps)[address] == memory[address]
}

/// Every element of `inner` is an element of `outer`.
pub open spec fn contains(outer: Desc, inner: Desc) -> bool {
    forall|lin: nat| lin < inner.count() ==> !outer.avoids(#[trigger] inner.nth(lin))
}

/// The result is a memref in the storage of the operand, as the alias says. It is the operand
/// itself if the operation writes to it.
pub open spec fn related(
    alias: Alias,
    written: bool,
    operand: Runtime,
    result: Runtime,
) -> bool {
    &&& operand is Desc && result is Desc
    &&& contains(operand->Desc_0, result->Desc_0)
    &&& alias.relation is Equivalent ==> contains(result->Desc_0, operand->Desc_0)
    &&& written ==> result == operand && alias.relation is Equivalent
    &&& !(alias.relation is Unknown)
    &&& alias.kind is Must
}

/// The element of a result is one of an operand that the operation says shares its buffer with
/// the result, or of a memref that the plan allocates.
pub open spec fn has_source<T: BufferizableOpInterface>(
    op: T,
    m: Machine,
    memory: Memory,
    steps: Seq<StepView>,
    aliases: Seq<Alias>,
    result: usize,
    address: int,
) -> bool {
    ||| exists|j: int|
        0 <= j < aliases.len() && (#[trigger] aliases[j]).result == result && !value_avoids(
            (m.values)(op.operands()[aliases[j].operand.index as int]),
            address,
        )
    ||| !allocated_avoid(m, memory, steps, address)
}

/// The results are memrefs or elements, and share storage with exactly the operands that the
/// operation says they do.
pub open spec fn shares_as_declared<T: BufferizableOpInterface>(
    op: T,
    plan: PlanView,
    m: Machine,
    memory: Memory,
    at: usize,
    results: Seq<usize>,
) -> bool {
    let values = outcomes::replacements(m, memory, plan);
    let aliases = op.aliases(at, results);
    &&& values.len() == results.len()
    &&& forall|i: int|
        0 <= i < results.len() ==> (#[trigger] values[i] is Desc || values[i] is Element)
    &&& forall|j: int, i: int|
        0 <= j < aliases.len() && 0 <= i < results.len() && (#[trigger] aliases[j]).result
            == #[trigger] results[i] ==> related(
            aliases[j],
            op.writes(aliases[j].operand.index as int),
            (m.values)(op.operands()[aliases[j].operand.index as int]),
            values[i],
        )
    &&& forall|i: int, lin: nat|
        0 <= i < results.len() && values[i] is Desc && lin < values[i]->Desc_0.count()
            ==> has_source(
            op,
            m,
            memory,
            plan.steps,
            aliases,
            results[i],
            #[trigger] values[i]->Desc_0.nth(lin),
        )
}

/// An operation that takes part in bufferization and keeps to what it says of itself.
pub trait Effects: BufferizableOpInterface {
    /// The values of the operands are such as the checks of the operation and of the analysis
    /// make sure of.
    spec fn runnable(&self, m: Machine) -> bool;

    /// Running what replaces the operation changes no memory but that of operands which it says
    /// it writes to and of memrefs that it allocates. What takes the place of a result lies in
    /// the storage of exactly those operands that the operation says share a buffer with it,
    /// and is the operand itself if the operation writes to it.
    proof fn law_effects(&self, m: Machine, memory: Memory, at: usize, results: Seq<usize>)
        requires
            self.ready(m.ctx),
            self.runnable(m),
            results.len() == self.num_results(),
            self.operands().len() <= usize::MAX,
        ensures
            self.rewritten(m.ctx) matches RewriteView::Replaced(plan) ==> {
                &&& writes_as_declared(*self, plan, m, memory)
                &&& shares_as_declared(*self, plan, m, memory, at, results)
            },
    ;

    /// Sizes that the operation knows of an operand are those of its memref in the dynamic
    /// dimensions of its type.
    proof fn law_known_sizes(&self, m: Machine, opd: int)
        requires
            self.ready(m.ctx),
            self.runnable(m),
            0 <= opd < self.operands().len(),
            (m.values)(self.operands()[opd]) is Desc,
            m.ctx.as_memref(self.operands()[opd].ty) is Some,
        ensures
            self.dynamic_sizes(opd) matches Some(values) ==> lowering_laws::ints_of(m, values)
                == bufferize_laws::dynamic_sizes(
                m.ctx.as_memref(self.operands()[opd].ty)->0.shape,
                (m.values)(self.operands()[opd])->Desc_0.sizes,
            ),
    ;

    /// Results can be written in place. Where arguments of the blocks of an operation can be, the
    /// operation says that it writes to all tensors that it takes.
    proof fn law_handed_over(&self, at: usize, block: usize, opd: int)
        ensures
            self.writable(DefiningEntity::Op(at)),
            self.writable(DefiningEntity::Block(block)) && 0 <= opd < self.operands().len()
                && self.takes_tensor(opd) ==> self.writes(opd),
    ;
}

/// An operand that the operation does not write to holds after it what it held before, if it
/// lies apart from those that are written to and from what is allocated.
pub proof fn law_other_operands_are_kept<T: Effects>(
    op: T,
    m: Machine,
    memory: Memory,
    kept: Desc,
    lin: nat,
)
    requires
        op.ready(m.ctx),
        op.runnable(m),
        op.operands().len() <= usize::MAX,
        op.rewritten(m.ctx) is Replaced,
        lin < kept.count(),
        forall|opd: int|
            0 <= opd < op.operands().len() && op.writes(opd) ==> ((m.values)(
                #[trigger] op.operands()[opd],
            ) matches Runtime::Desc(d) ==> d.avoids(kept.nth(lin))),
        allocated_avoid(
            m,
            memory,
            op.rewritten(m.ctx)->Replaced_0.steps,
            kept.nth(lin),
        ),
    ensures
        m.memory_after(memory, op.rewritten(m.ctx)->Replaced_0.steps)[kept.nth(lin)]
            == memory[kept.nth(lin)],
{
    let results = Seq::new(op.num_results(), |i: int| 0usize);
    op.law_effects(m, memory, 0, results);
    assert(written_avoid(op, m, kept.nth(lin)));
}

proof fn lemma_contains_itself(d: Desc)
    ensures
        contains(d, d),
{
}

/// One alias, of a result that is the memref of the operand.
proof fn lemma_operand_is_result<T: BufferizableOpInterface>(
    op: T,
    plan: PlanView,
    m: Machine,
    memory: Memory,
    at: usize,
    results: Seq<usize>,
    index: usize,
)
    requires
        results.len() == 1,
        op.aliases(at, results) == conversions::one_alias(
            at,
            index,
            results,
            BufferRelation::Equivalent,
        ),
        (m.values)(op.operands()[index as int]) is Desc,
        outcomes::replacements(m, memory, plan) == seq![(m.values)(op.operands()[index as int])],
    ensures
        shares_as_declared(op, plan, m, memory, at, results),
{
    let d = (m.values)(op.operands()[index as int])->Desc_0;
    let aliases = op.aliases(at, results);
    assert(aliases[0].result == results[0]);
    lemma_contains_itself(d);
}

/// No aliases, and a result that is a memref which a step allocates.
proof fn lemma_result_is_allocated<T: BufferizableOpInterface>(
    op: T,
    plan: PlanView,
    m: Machine,
    memory: Memory,
    at: usize,
    results: Seq<usize>,
    k: int,
)
    requires
        results.len() == 1,
        op.aliases(at, results).len() == 0,
        0 <= k < plan.steps.len(),
        plan.steps[k] is Alloc,
        plan.replacement == ReplacementOf::<Seq<Ref>>::Step(k as usize),
        k <= usize::MAX,
        m.results(memory, plan.steps)[k] is Desc,
    ensures
        shares_as_declared(op, plan, m, memory, at, results),
{
    let values = outcomes::replacements(m, memory, plan);
    assert forall|i: int, lin: nat|
        0 <= i < results.len() && values[i] is Desc && lin < values[i]->Desc_0.count() implies has_source(
        op,
        m,
        memory,
        plan.steps,
        op.aliases(at, results),
        results[i],
        #[trigger] values[i]->Desc_0.nth(lin),
    ) by {
        let d = values[i]->Desc_0;
        assert(allocation(m, memory, plan.steps, k) == Some(d));
        assert(!d.avoids(d.nth(lin)));
    }
}

// Tensors from indices
impl Effects for GenerateOp {
    open spec fn runnable(&self, m: Machine) -> bool {
        &&& m.ctx.holds(memref::stored_as(m.ctx.get(self.op.result_types@[0])))
        &&& lowering_laws::are_ints(m, self.op.operands@)
    }

    proof fn law_effects(&self, m: Machine, memory: Memory, at: usize, results: Seq<usize>) {
        let plan = self.bufferized(m.ctx);
        bufferize_laws::law_generate_runs(*self, m, memory);
        assert forall|address: int|
            allocated_avoid(m, memory, plan.steps, address) implies #[trigger] m.memory_after(
            memory,
            plan.steps,
        )[address] == memory[address] by {
            assert(allocation(m, memory, plan.steps, 0) is Some);
        }
        lemma_result_is_allocated(*self, plan, m, memory, at, results, 0);
    }

    proof fn law_known_sizes(&self, m: Machine, opd: int) {
    }

    proof fn law_handed_over(&self, at: usize, block: usize, opd: int) {
    }
}

// Elements
impl Effects for ExtractOp {
    open spec fn runnable(&self, m: Machine) -> bool {
        &&& (m.values)(self.op.operands@[0]) is Desc
        &&& lowering_laws::are_ints(m, self.op.operands@.skip(1))
        &&& row_major::in_bounds(
            (m.values)(self.op.operands@[0])->Desc_0.sizes,
            lowering_laws::ints_of(m, self.op.operands@.skip(1)),
        )
    }

    proof fn law_effects(&self, m: Machine, memory: Memory, at: usize, results: Seq<usize>) {
        bufferize_laws::law_extract_runs(*self, m, memory);
    }

    proof fn law_known_sizes(&self, m: Machine, opd: int) {
    }

    proof fn law_handed_over(&self, at: usize, block: usize, opd: int) {
    }
}

// Element-wise operations
/// The operands are memrefs of one size, as their types say.
pub open spec fn element_wise_runnable(
    m: Machine,
    operands: Seq<Value>,
    result_types: Seq<TypeHandle>,
) -> bool {
    &&& m.ctx.holds(conversions::element_wise_type(m.ctx, operands, result_types[0]))
    &&& (m.values)(operands[0]) is Desc
    &&& (m.values)(operands[1]) is Desc
    &&& bufferize_laws::fits(
        m.ctx.as_memref(operands[0].ty)->Some_0.shape,
        (m.values)(operands[0])->Desc_0.sizes,
    )
    &&& bufferize_laws::fits(
        m.ctx.as_memref(operands[1].ty)->Some_0.shape,
        (m.values)(operands[1])->Desc_0.sizes,
    )
    &&& (m.values)(operands[0])->Desc_0.sizes == (m.values)(operands[1])->Desc_0.sizes
    &&& (m.values)(operands[0])->Desc_0.sizes.len() <= usize::MAX
}

proof fn lemma_element_wise_effects<T: BufferizableOpInterface>(
    op: T,
    kind: ElementWiseKind,
    operands: Seq<Value>,
    result_types: Seq<TypeHandle>,
    m: Machine,
    memory: Memory,
    at: usize,
    results: Seq<usize>,
)
    requires
        conversions::element_wise_ready(m.ctx, operands, result_types),
        element_wise_runnable(m, operands, result_types),
        op.aliases(at, results).len() == 0,
        results.len() == 1,
    ensures
        ({
            let plan = conversions::element_wise_bufferized(
                kind,
                m.ctx,
                operands,
                result_types[0],
            );
            &&& writes_as_declared(op, plan, m, memory)
            &&& shares_as_declared(op, plan, m, memory, at, results)
        }),
{
    let plan = conversions::element_wise_bufferized(kind, m.ctx, operands, result_types[0]);
    let lhs = (m.values)(operands[0])->Desc_0;
    let rhs = (m.values)(operands[1])->Desc_0;
    let n = conversions::dynamic_dims(conversions::element_wise_shape(m.ctx, operands)).len();
    bufferize_laws::lemma_element_wise_plan(kind, operands, result_types, m, memory, lhs, rhs);
    let res = m.results(memory, plan.steps)[n as int]->Desc_0;
    assert forall|address: int|
        allocated_avoid(m, memory, plan.steps, address) implies #[trigger] m.memory_after(
        memory,
        plan.steps,
    )[address] == memory[address] by {
        assert(allocation(m, memory, plan.steps, n as int) == Some(res));
        let target = |lin: nat| res.nth(lin);
        let f = m.element_wise();
        let value = |lin: nat, mem: Memory|
            f(
                kind,
                mem[lhs.address(row_major::delinearize(res.sizes, lin))],
                mem[rhs.address(row_major::delinearize(res.sizes, lin))],
            );
        assert forall|a: nat| a < res.count() implies #[trigger] target(a) != address by {
            assert(res.nth(a) != address);
        }
        semantics::lemma_filled_elsewhere(target, value, res.count(), memory, address);
        assert(semantics::combined(f, kind, res, lhs, rhs, memory) == semantics::filled(
            target,
            value,
            res.count(),
            memory,
        ));
    }
    lemma_result_is_allocated(op, plan, m, memory, at, results, n as int);
}

/// The sizes and elements of the memref that takes the place of the result of an element-wise
/// operation: at each index, what the kind of the operation computes from the elements of the
/// operands.
pub open spec fn computes(
    kind: ElementWiseKind,
    plan: PlanView,
    m: Machine,
    memory: Memory,
    lhs: Desc,
    rhs: Desc,
) -> bool {
    let after = m.memory_after(memory, plan.steps);
    outcomes::replacements(m, memory, plan)[0] matches Runtime::Desc(res) && res.sizes == lhs.sizes && (
    res.disjoint(lhs) && res.disjoint(rhs) ==> forall|lin: nat|
        lin < res.count() ==> after[#[trigger] res.nth(lin)] == m.element_result(
            kind,
            memory[lhs.nth(lin)],
            memory[rhs.nth(lin)],
        ))
}

proof fn lemma_computes(
    kind: ElementWiseKind,
    operands: Seq<Value>,
    result_types: Seq<TypeHandle>,
    m: Machine,
    memory: Memory,
)
    requires
        conversions::element_wise_ready(m.ctx, operands, result_types),
        element_wise_runnable(m, operands, result_types),
    ensures
        computes(
            kind,
            conversions::element_wise_bufferized(kind, m.ctx, operands, result_types[0]),
            m,
            memory,
            (m.values)(operands[0])->Desc_0,
            (m.values)(operands[1])->Desc_0,
        ),
{
    let plan = conversions::element_wise_bufferized(kind, m.ctx, operands, result_types[0]);
    let lhs = (m.values)(operands[0])->Desc_0;
    let rhs = (m.values)(operands[1])->Desc_0;
    bufferize_laws::lemma_element_wise_plan(kind, operands, result_types, m, memory, lhs, rhs);
    let res = outcomes::replacements(m, memory, plan)[0]->Desc_0;
    if res.disjoint(lhs) && res.disjoint(rhs) {
        bufferize_laws::law_element_wise_runs(
            kind,
            operands,
            result_types,
            m,
            memory,
            lhs,
            rhs,
        );
    }
}

impl Effects for AddOp {
    open spec fn runnable(&self, m: Machine) -> bool {
        element_wise_runnable(m, self.op.operands@, self.op.result_types@)
    }

    proof fn law_effects(&self, m: Machine, memory: Memory, at: usize, results: Seq<usize>) {
        lemma_element_wise_effects(
            *self,
            ElementWiseKind::Add,
            self.op.operands@,
            self.op.result_types@,
            m,
            memory,
            at,
            results,
        );
    }

    proof fn law_known_sizes(&self, m: Machine, opd: int) {
    }

    proof fn law_handed_over(&self, at: usize, block: usize, opd: int) {
    }
}

/// What takes the place of the result of `add` holds, at each index, the sum of the elements
/// of the operands.
pub proof fn law_add_runs(op: AddOp, m: Machine, memory: Memory)
    requires
        op.ready(m.ctx),
        op.runnable(m),
    ensures
        op.rewritten(m.ctx) matches RewriteView::Replaced(plan) && computes(
            ElementWiseKind::Add,
            plan,
            m,
            memory,
            (m.values)(op.op.operands@[0])->Desc_0,
            (m.values)(op.op.operands@[1])->Desc_0,
        ),
{
    lemma_computes(ElementWiseKind::Add, op.op.operands@, op.op.result_types@, m, memory);
}

impl Effects for SubOp {
    open spec fn runnable(&self, m: Machine) -> bool {
        element_wise_runnable(m, self.op.operands@, self.op.result_types@)
    }

    proof fn law_effects(&self, m: Machine, memory: Memory, at: usize, results: Seq<usize>) {
        lemma_element_wise_effects(
            *self,
            ElementWiseKind::Sub,
            self.op.operands@,
            self.op.result_types@,
            m,
            memory,
            at,
            results,
        );
    }

    proof fn law_known_sizes(&self, m: Machine, opd: int) {
    }

    proof fn law_handed_over(&self, at: usize, block: usize, opd: int) {
    }
}

/// What takes the place of the result of `sub` holds, at each index, the difference of the elements
/// of the operands.
pub proof fn law_sub_runs(op: SubOp, m: Machine, memory: Memory)
    requires
        op.ready(m.ctx),
        op.runnable(m),
    ensures
        op.rewritten(m.ctx) matches RewriteView::Replaced(plan) && computes(
            ElementWiseKind::Sub,
            plan,
            m,
            memory,
            (m.values)(op.op.operands@[0])->Desc_0,
            (m.values)(op.op.operands@[1])->Desc_0,
        ),
{
    lemma_computes(ElementWiseKind::Sub, op.op.operands@, op.op.result_types@, m, memory);
}

impl Effects for MulOp {
    open spec fn runnable(&self, m: Machine) -> bool {
        element_wise_runnable(m, self.op.operands@, self.op.result_types@)
    }

    proof fn law_effects(&self, m: Machine, memory: Memory, at: usize, results: Seq<usize>) {
        lemma_element_wise_effects(
            *self,
            ElementWiseKind::Mul,
            self.op.operands@,
            self.op.result_types@,
            m,
            memory,
            at,
            results,
        );
    }

    proof fn law_known_sizes(&self, m: Machine, opd: int) {
    }

    proof fn law_handed_over(&self, at: usize, block: usize, opd: int) {
    }
}

/// What takes the place of the result of `mul` holds, at each index, the product of the elements
/// of the operands.
pub proof fn law_mul_runs(op: MulOp, m: Machine, memory: Memory)
    requires
        op.ready(m.ctx),
        op.runnable(m),
    ensures
        op.rewritten(m.ctx) matches RewriteView::Replaced(plan) && computes(
            ElementWiseKind::Mul,
            plan,
            m,
            memory,
            (m.values)(op.op.operands@[0])->Desc_0,
            (m.values)(op.op.operands@[1])->Desc_0,
        ),
{
    lemma_computes(ElementWiseKind::Mul, op.op.operands@, op.op.result_types@, m, memory);
}

impl Effects for DivOp {
    open spec fn runnable(&self, m: Machine) -> bool {
        element_wise_runnable(m, self.op.operands@, self.op.result_types@)
    }

    proof fn law_effects(&self, m: Machine, memory: Memory, at: usize, results: Seq<usize>) {
        lemma_element_wise_effects(
            *self,
            ElementWiseKind::Div,
            self.op.operands@,
            self.op.result_types@,
            m,
            memory,
            at,
            results,
        );
    }

    proof fn law_known_sizes(&self, m: Machine, opd: int) {
    }

    proof fn law_handed_over(&self, at: usize, block: usize, opd: int) {
    }
}

/// What takes the place of the result of `div` holds, at each index, the quotient of the elements
/// of the operands.
pub proof fn law_div_runs(op: DivOp, m: Machine, memory: Memory)
    requires
        op.ready(m.ctx),
        op.runnable(m),
    ensures
        op.rewritten(m.ctx) matches RewriteView::Replaced(plan) && computes(
            ElementWiseKind::Div,
            plan,
            m,
            memory,
            (m.values)(op.op.operands@[0])->Desc_0,
            (m.values)(op.op.operands@[1])->Desc_0,
        ),
{
    lemma_computes(ElementWiseKind::Div, op.op.operands@, op.op.result_types@, m, memory);
}

// Matrix products
impl Effects for MatMulOp {
    open spec fn runnable(&self, m: Machine) -> bool {
        &&& (m.values)(self.op.operands@[0]) is Desc
        &&& (m.values)(self.op.operands@[1]) is Desc
        &&& (m.values)(self.op.operands@[2]) is Desc
        &&& semantics::multipliable(
            (m.values)(self.op.operands@[2])->Desc_0,
            (m.values)(self.op.operands@[0])->Desc_0,
            (m.values)(self.op.operands@[1])->Desc_0,
        )
    }

    proof fn law_effects(&self, m: Machine, memory: Memory, at: usize, results: Seq<usize>) {
        let plan = self.bufferized();
        let accum = (m.values)(self.op.operands@[2])->Desc_0;
        let lhs = (m.values)(self.op.operands@[0])->Desc_0;
        let rhs = (m.values)(self.op.operands@[1])->Desc_0;
        bufferize_laws::law_mat_mul_runs(*self, m, memory, accum, lhs, rhs);
        assert forall|address: int| written_avoid(*self, m, address) implies #[trigger] m.memory_after(
            memory,
            plan.steps,
        )[address] == memory[address] by {
            assert(value_avoids((m.values)(self.operands()[2]), address));
        }
        assert(outcomes::replacements(m, memory, plan) =~= seq![(m.values)(self.operands()[2])]);
        lemma_operand_is_result(*self, plan, m, memory, at, results, 2);
    }

    proof fn law_known_sizes(&self, m: Machine, opd: int) {
    }

    proof fn law_handed_over(&self, at: usize, block: usize, opd: int) {
    }
}

// Batches of matrix products
/// The accumulator takes the place of the result.
pub proof fn lemma_batch_result(op: BatchMatMulOp, m: Machine, memory: Memory)
    requires
        op.ready(m.ctx),
        (m.values)(op.op.operands@[2]) is Desc,
    ensures
        outcomes::replacements(m, memory, op.bufferized(m.ctx)) == seq![
            (m.values)(op.op.operands@[2]),
        ],
{
    let plan = op.bufferized(m.ctx);
    assert(outcomes::replacements(m, memory, plan)[0] == (m.values)(op.op.operands@[2])) by {
        if op.lhs_shape(m.ctx).len() == 2 {
            assert(plan.steps.len() == 5);
            m.lemma_run_step(memory, plan.steps, 5);
            reveal(Machine::step);
        }
    }
    assert(outcomes::replacements(m, memory, plan) =~= seq![(m.values)(op.op.operands@[2])]);
}

impl Effects for BatchMatMulOp {
    open spec fn runnable(&self, m: Machine) -> bool {
        let lhs = (m.values)(self.op.operands@[0])->Desc_0;
        let rhs = (m.values)(self.op.operands@[1])->Desc_0;
        let accum = (m.values)(self.op.operands@[2])->Desc_0;
        &&& (m.values)(self.op.operands@[0]) is Desc
        &&& (m.values)(self.op.operands@[1]) is Desc
        &&& (m.values)(self.op.operands@[2]) is Desc
        &&& bufferize_laws::fits(self.lhs_shape(m.ctx), lhs.sizes)
        &&& bufferize_laws::fits(self.rhs_shape(m.ctx), rhs.sizes)
        &&& bufferize_laws::batch_multipliable(accum, lhs, rhs)
        &&& lhs.sizes.len() > 2 ==> {
            &&& self.has_matrix_types(m.ctx) && self.inner_alike(m.ctx)
            &&& bufferize_laws::matrices_contiguous(accum)
            &&& bufferize_laws::matrices_contiguous(lhs)
            &&& bufferize_laws::matrices_contiguous(rhs)
        }
    }

    proof fn law_effects(&self, m: Machine, memory: Memory, at: usize, results: Seq<usize>) {
        let plan = self.bufferized(m.ctx);
        let lhs = (m.values)(self.op.operands@[0])->Desc_0;
        let rhs = (m.values)(self.op.operands@[1])->Desc_0;
        let accum = (m.values)(self.op.operands@[2])->Desc_0;
        bufferize_laws::law_batch_mat_mul_runs(*self, m, memory, accum, lhs, rhs);
        assert forall|address: int| written_avoid(*self, m, address) implies #[trigger] m.memory_after(
            memory,
            plan.steps,
        )[address] == memory[address] by {
            assert(value_avoids((m.values)(self.operands()[2]), address));
        }
        lemma_batch_result(*self, m, memory);
        lemma_operand_is_result(*self, plan, m, memory, at, results, 2);
    }

    proof fn law_known_sizes(&self, m: Machine, opd: int) {
    }

    proof fn law_handed_over(&self, at: usize, block: usize, opd: int) {
    }
}

// Slices
/// The parameters of a slice are integers, and the slice lies within a memref.
pub open spec fn slice_runnable(
    m: Machine,
    whole: Runtime,
    offsets: Seq<SliceParam>,
    sizes: Seq<SliceParam>,
    steps: Seq<SliceParam>,
) -> bool {
    &&& whole is Desc
    &&& lowering_laws::params_are_ints(m, offsets)
    &&& lowering_laws::params_are_ints(m, sizes)
    &&& lowering_laws::params_are_ints(m, steps)
    &&& bufferize_laws::slice_within(
        whole->Desc_0,
        lowering_laws::param_values(m, offsets),
        lowering_laws::param_values(m, sizes),
        lowering_laws::param_values(m, steps),
    )
}

impl Effects for ExtractSliceOp {
    open spec fn runnable(&self, m: Machine) -> bool {
        slice_runnable(
            m,
            (m.values)(self.op.operands@[0]),
            self.offsets(),
            self.sizes(),
            self.steps(),
        )
    }

    proof fn law_effects(&self, m: Machine, memory: Memory, at: usize, results: Seq<usize>) {
        let plan = self.bufferized();
        let source = (m.values)(self.op.operands@[0])->Desc_0;
        let offsets = lowering_laws::param_values(m, self.offsets());
        let sizes = lowering_laws::param_values(m, self.sizes());
        let factors = lowering_laws::param_values(m, self.steps());
        let values = outcomes::replacements(m, memory, plan);
        let aliases = self.aliases(at, results);
        bufferize_laws::law_extract_slice_runs(
            *self,
            m,
            memory,
            source,
            Seq::new(source.sizes.len(), |i: int| 0nat),
        );
        let view = values[0]->Desc_0;
        assert forall|lin: nat| lin < view.count() implies !source.avoids(
            #[trigger] view.nth(lin),
        ) by {
            row_major::lemma_delinearize(sizes, lin);
            let idxs = row_major::delinearize(sizes, lin);
            bufferize_laws::law_extract_slice_runs(*self, m, memory, source, idxs);
            let place = semantics::slice_indices(offsets, factors, idxs);
            semantics::lemma_address_is_nth(source, place);
            assert(source.nth(row_major::linearize(source.sizes, place)) == view.nth(lin));
        }
        assert(aliases[0].result == results[0]);
        assert forall|i: int, lin: nat|
            0 <= i < results.len() && values[i] is Desc && lin
                < values[i]->Desc_0.count() implies has_source(
            *self,
            m,
            memory,
            plan.steps,
            aliases,
            results[i],
            #[trigger] values[i]->Desc_0.nth(lin),
        ) by {
            assert(!value_avoids((m.values)(self.operands()[0]), view.nth(lin)));
        }
    }

    proof fn law_known_sizes(&self, m: Machine, opd: int) {
    }

    proof fn law_handed_over(&self, at: usize, block: usize, opd: int) {
    }
}

impl Effects for InsertSliceOp {
    open spec fn runnable(&self, m: Machine) -> bool {
        let source = (m.values)(self.op.operands@[0]);
        let destination = (m.values)(self.op.operands@[1]);
        &&& slice_runnable(m, destination, self.offsets(), self.sizes(), self.steps())
        &&& source is Desc
        &&& source->Desc_0.sizes == lowering_laws::param_values(m, self.sizes())
        &&& destination->Desc_0.injective()
        &&& source->Desc_0.disjoint(destination->Desc_0)
    }

    proof fn law_effects(&self, m: Machine, memory: Memory, at: usize, results: Seq<usize>) {
        let plan = self.bufferized();
        let source = (m.values)(self.op.operands@[0])->Desc_0;
        let destination = (m.values)(self.op.operands@[1])->Desc_0;
        let offsets = lowering_laws::param_values(m, self.offsets());
        let factors = lowering_laws::param_values(m, self.steps());
        bufferize_laws::law_insert_slice_runs(*self, m, memory, destination, source);
        assert forall|address: int| written_avoid(*self, m, address) implies #[trigger] m.memory_after(
            memory,
            plan.steps,
        )[address] == memory[address] by {
            assert(value_avoids((m.values)(self.operands()[1]), address));
            assert forall|idxs: Seq<nat>|
                row_major::in_bounds(source.sizes, idxs) implies destination.address(
                #[trigger] semantics::slice_indices(offsets, factors, idxs),
            ) != address by {
                let place = semantics::slice_indices(offsets, factors, idxs);
                semantics::lemma_address_is_nth(destination, place);
                assert(destination.nth(row_major::linearize(destination.sizes, place)) != address);
            }
        }
        assert(outcomes::replacements(m, memory, plan) =~= seq![(m.values)(self.operands()[1])]);
        lemma_operand_is_result(*self, plan, m, memory, at, results, 1);
    }

    proof fn law_known_sizes(&self, m: Machine, opd: int) {
    }

    proof fn law_handed_over(&self, at: usize, block: usize, opd: int) {
    }
}

// Shapes
impl Effects for ReshapeOp {
    open spec fn runnable(&self, m: Machine) -> bool {
        let source = (m.values)(self.op.operands@[0]);
        let sizes = semantics::filled_sizes(
            m.ctx.as_tensor(self.op.result_types@[0])->Some_0.shape,
            lowering_laws::ints_of(m, self.op.operands@.skip(1)),
        );
        &&& m.ctx.holds(memref::stored_as(m.ctx.get(self.op.result_types@[0])))
        &&& lowering_laws::are_ints(m, self.op.operands@.skip(1))
        &&& source is Desc
        &&& source->Desc_0.contiguous()
        &&& row_major::product(sizes) == source->Desc_0.count()
    }

    proof fn law_effects(&self, m: Machine, memory: Memory, at: usize, results: Seq<usize>) {
        let plan = self.bufferized(m.ctx);
        let source = (m.values)(self.op.operands@[0])->Desc_0;
        let values = outcomes::replacements(m, memory, plan);
        let aliases = self.aliases(at, results);
        let dynamic = lowering_laws::ints_of(m, self.op.operands@.skip(1));
        let sizes = semantics::filled_sizes(
            m.ctx.as_tensor(self.op.result_types@[0])->Some_0.shape,
            dynamic,
        );
        let r0 = m.run(memory, plan.steps, 0).0;
        m.lemma_run_step(memory, plan.steps, 1);
        assert(m.ints(r0, plan::value_refs(self.op.operands@.skip(1))) =~= dynamic);
        assert(m.step(r0, memory, plan.steps[0]) == (
            Runtime::Desc(source.reshaped(sizes)),
            memory,
        )) by {
            reveal(Machine::step);
        }
        let result = values[0]->Desc_0;
        assert(values[0] == Runtime::Desc(source.reshaped(sizes)));
        assert forall|lin: nat| lin < source.count() implies #[trigger] result.nth(lin)
            == source.nth(lin) by {
            bufferize_laws::law_reshape_runs(*self, m, memory, source, lin);
        }
        assert(contains(source, result));
        assert(contains(result, source)) by {
            assert forall|lin: nat| lin < source.count() implies !result.avoids(
                #[trigger] source.nth(lin),
            ) by {
                assert(result.nth(lin) == source.nth(lin));
            }
        }
        assert(aliases[0].result == results[0]);
        assert forall|i: int, lin: nat|
            0 <= i < results.len() && values[i] is Desc && lin
                < values[i]->Desc_0.count() implies has_source(
            *self,
            m,
            memory,
            plan.steps,
            aliases,
            results[i],
            #[trigger] values[i]->Desc_0.nth(lin),
        ) by {
            assert(!value_avoids((m.values)(self.operands()[0]), result.nth(lin)));
        }
    }

    proof fn law_known_sizes(&self, m: Machine, opd: int) {
    }

    proof fn law_handed_over(&self, at: usize, block: usize, opd: int) {
    }
}

// Loops and functions
impl Effects for ForOp {
    open spec fn runnable(&self, m: Machine) -> bool {
        true
    }

    proof fn law_effects(&self, m: Machine, memory: Memory, at: usize, results: Seq<usize>) {
    }

    proof fn law_known_sizes(&self, m: Machine, opd: int) {
    }

    proof fn law_handed_over(&self, at: usize, block: usize, opd: int) {
    }
}

impl Effects for PointerLoadOp {
    open spec fn runnable(&self, m: Machine) -> bool {
        true
    }

    proof fn law_effects(&self, m: Machine, memory: Memory, at: usize, results: Seq<usize>) {
    }

    proof fn law_known_sizes(&self, m: Machine, opd: int) {
    }

    proof fn law_handed_over(&self, at: usize, block: usize, opd: int) {
    }
}

impl Effects for FuncOp {
    open spec fn runnable(&self, m: Machine) -> bool {
        true
    }

    proof fn law_effects(&self, m: Machine, memory: Memory, at: usize, results: Seq<usize>) {
    }

    proof fn law_known_sizes(&self, m: Machine, opd: int) {
    }

    proof fn law_handed_over(&self, at: usize, block: usize, opd: int) {
    }
}

} // verus!
