//! What operations read when they run, held against what they say of themselves.

use crate::ir::{ForOp, FuncOp, PointerLoadOp, TypeHandle, Value};
use crate::memref::lowering_laws;
use crate::outcomes;
use crate::plan;
use crate::plan::{ElementWiseKind, PlanView};
use crate::row_major;
use crate::semantics;
use crate::semantics::{Desc, Machine, Memory, Runtime};
use crate::tensor::bufferize_laws;
use crate::tensor::conversions;
use crate::tensor::effects;
use crate::tensor::effects::Effects;
use crate::tensor::op_interfaces::{BufferizableOpInterface, RewriteView};
use crate::tensor::ops::{
    AddOp, BatchMatMulOp, DivOp, ExtractOp, ExtractSliceOp, GenerateOp, InsertSliceOp, MatMulOp,
    MulOp, ReshapeOp, SubOp,
};
use vstd::prelude::*;

verus! {

/// Two memories hold the same elements of a memref.
pub open spec fn same_elements(d: Desc, one: Memory, other: Memory) -> bool {
    forall|lin: nat| lin < d.count() ==> one[#[trigger] d.nth(lin)] == other[d.nth(lin)]
}

/// Two memories hold the same elements of all operands that the operation says it reads.
pub open spec fn same_where_read<T: BufferizableOpInterface>(
    op: T,
    m: Machine,
    one: Memory,
    other: Memory,
) -> bool {
    forall|opd: int|
        0 <= opd < op.operands().len() && op.reads(opd) ==> ((m.values)(
            #[trigger] op.operands()[opd],
        ) matches Runtime::Desc(d) ==> same_elements(d, one, other))
}

/// Running a plan in two memories gives the same values and, where they are memrefs, the same
/// elements.
pub open spec fn same_outcome(plan: PlanView, m: Machine, one: Memory, other: Memory) -> bool {
    let values = outcomes::replacements(m, one, plan);
    &&& outcomes::replacements(m, other, plan) == values
    &&& forall|i: int|
        0 <= i < values.len() ==> (#[trigger] values[i] matches Runtime::Desc(d) ==> same_elements(
            d,
            m.memory_after(one, plan.steps),
            m.memory_after(other, plan.steps),
        ))
}

/// An operation whose results depend on no operand but those that it says it reads.
pub trait Reads: Effects {
    /// In memories that hold the same elements of all operands that the operation says it reads,
    /// what replaces it gives the same results.
    proof fn law_reads(&self, m: Machine, one: Memory, other: Memory)
        requires
            self.ready(m.ctx),
            self.runnable(m),
            self.operands().len() <= usize::MAX,
            same_where_read(*self, m, one, other),
        ensures
            self.rewritten(m.ctx) matches RewriteView::Replaced(plan) ==> same_outcome(
                plan,
                m,
                one,
                other,
            ),
    ;
}

/// Where two memories were the same, two others are.
pub open spec fn stays_same(one: Memory, other: Memory, a: Memory, b: Memory) -> bool {
    forall|address: int| one[address] == other[address] ==> #[trigger] a[address] == b[address]
}

/// Writes of values that depend only on what two memories share make them share more.
proof fn lemma_filled_alike(
    target: spec_fn(nat) -> int,
    value: spec_fn(nat, Memory) -> int,
    n: nat,
    one: Memory,
    other: Memory,
)
    requires
        forall|lin: nat, a: Memory, b: Memory|
            lin < n && stays_same(one, other, a, b) ==> #[trigger] value(lin, a)
                == #[trigger] value(lin, b),
    ensures
        ({
            let a = semantics::filled(target, value, n, one);
            let b = semantics::filled(target, value, n, other);
            &&& stays_same(one, other, a, b)
            &&& forall|lin: nat| lin < n ==> a[#[trigger] target(lin)] == b[target(lin)]
        }),
    decreases n,
{
    if n > 0 {
        let last = (n - 1) as nat;
        lemma_filled_alike(target, value, last, one, other);
        let a = semantics::filled(target, value, last, one);
        let b = semantics::filled(target, value, last, other);
        assert(value(last, a) == value(last, b));
    }
}

// Tensors from indices
impl Reads for GenerateOp {
    proof fn law_reads(&self, m: Machine, one: Memory, other: Memory) {
        bufferize_laws::law_generate_runs(*self, m, one);
        bufferize_laws::law_generate_runs(*self, m, other);
        let plan = self.bufferized(m.ctx);
        assert(outcomes::replacements(m, one, plan) =~= outcomes::replacements(m, other, plan));
    }
}

// Elements
impl Reads for ExtractOp {
    proof fn law_reads(&self, m: Machine, one: Memory, other: Memory) {
        let plan = self.bufferized();
        let source = (m.values)(self.op.operands@[0])->Desc_0;
        let indices = lowering_laws::ints_of(m, self.op.operands@.skip(1));
        bufferize_laws::law_extract_runs(*self, m, one);
        bufferize_laws::law_extract_runs(*self, m, other);
        assert(same_elements(source, one, other)) by {
            assert(self.reads(0) && self.operands()[0] == self.op.operands@[0]);
        }
        semantics::lemma_address_is_nth(source, indices);
        assert(one[source.nth(row_major::linearize(source.sizes, indices))]
            == other[source.nth(row_major::linearize(source.sizes, indices))]);
        assert(outcomes::replacements(m, one, plan) =~= outcomes::replacements(m, other, plan));
    }
}

// Element-wise operations
proof fn lemma_element_wise_reads(
    kind: ElementWiseKind,
    operands: Seq<Value>,
    result_types: Seq<TypeHandle>,
    m: Machine,
    one: Memory,
    other: Memory,
)
    requires
        conversions::element_wise_ready(m.ctx, operands, result_types),
        effects::element_wise_runnable(m, operands, result_types),
        same_elements((m.values)(operands[0])->Desc_0, one, other),
        same_elements((m.values)(operands[1])->Desc_0, one, other),
    ensures
        same_outcome(
            conversions::element_wise_bufferized(kind, m.ctx, operands, result_types[0]),
            m,
            one,
            other,
        ),
{
    let plan = conversions::element_wise_bufferized(kind, m.ctx, operands, result_types[0]);
    let lhs = (m.values)(operands[0])->Desc_0;
    let rhs = (m.values)(operands[1])->Desc_0;
    bufferize_laws::lemma_element_wise_plan(kind, operands, result_types, m, one, lhs, rhs);
    bufferize_laws::lemma_element_wise_plan(kind, operands, result_types, m, other, lhs, rhs);
    assert(outcomes::replacements(m, one, plan) =~= outcomes::replacements(m, other, plan));
    let res = outcomes::replacements(m, one, plan)[0]->Desc_0;
    let f = m.element_wise();
    let target = |lin: nat| res.nth(lin);
    let value = |lin: nat, mem: Memory|
        f(
            kind,
            mem[lhs.address(row_major::delinearize(res.sizes, lin))],
            mem[rhs.address(row_major::delinearize(res.sizes, lin))],
        );
    assert forall|lin: nat, a: Memory, b: Memory|
        lin < res.count() && stays_same(one, other, a, b) implies #[trigger] value(lin, a)
        == #[trigger] value(lin, b) by {
        assert(one[lhs.nth(lin)] == other[lhs.nth(lin)]);
        assert(one[rhs.nth(lin)] == other[rhs.nth(lin)]);
        assert(a[lhs.nth(lin)] == b[lhs.nth(lin)]);
        assert(a[rhs.nth(lin)] == b[rhs.nth(lin)]);
    }
    lemma_filled_alike(target, value, res.count(), one, other);
    let after_one = semantics::filled(target, value, res.count(), one);
    let after_other = semantics::filled(target, value, res.count(), other);
    assert(semantics::combined(f, kind, res, lhs, rhs, one) == after_one);
    assert(semantics::combined(f, kind, res, lhs, rhs, other) == after_other);
    assert forall|lin: nat| lin < res.count() implies after_one[#[trigger] res.nth(lin)]
        == after_other[res.nth(lin)] by {
        assert(after_one[target(lin)] == after_other[target(lin)]);
    }
}

impl Reads for AddOp {
    proof fn law_reads(&self, m: Machine, one: Memory, other: Memory) {
        assert(self.reads(0) && self.operands()[0] == self.op.operands@[0]);
        assert(self.reads(1) && self.operands()[1] == self.op.operands@[1]);
        lemma_element_wise_reads(
            ElementWiseKind::Add,
            self.op.operands@,
            self.op.result_types@,
            m,
            one,
            other,
        );
    }
}

impl Reads for SubOp {
    proof fn law_reads(&self, m: Machine, one: Memory, other: Memory) {
        assert(self.reads(0) && self.operands()[0] == self.op.operands@[0]);
        assert(self.reads(1) && self.operands()[1] == self.op.operands@[1]);
        lemma_element_wise_reads(
            ElementWiseKind::Sub,
            self.op.operands@,
            self.op.result_types@,
            m,
            one,
            other,
        );
    }
}

impl Reads for MulOp {
    proof fn law_reads(&self, m: Machine, one: Memory, other: Memory) {
        assert(self.reads(0) && self.operands()[0] == self.op.operands@[0]);
        assert(self.reads(1) && self.operands()[1] == self.op.operands@[1]);
        lemma_element_wise_reads(
            ElementWiseKind::Mul,
            self.op.operands@,
            self.op.result_types@,
            m,
            one,
            other,
        );
    }
}

impl Reads for DivOp {
    proof fn law_reads(&self, m: Machine, one: Memory, other: Memory) {
        assert(self.reads(0) && self.operands()[0] == self.op.operands@[0]);
        assert(self.reads(1) && self.operands()[1] == self.op.operands@[1]);
        lemma_element_wise_reads(
            ElementWiseKind::Div,
            self.op.operands@,
            self.op.result_types@,
            m,
            one,
            other,
        );
    }
}

// Matrix products
proof fn lemma_product_alike(
    m: Machine,
    accum: Desc,
    lhs: Desc,
    rhs: Desc,
    n: nat,
    one: Memory,
    other: Memory,
)
    requires
        semantics::multipliable(accum, lhs, rhs),
        n <= row_major::product(seq![accum.sizes[0], accum.sizes[1], lhs.sizes[1]]),
        same_elements(accum, one, other),
        same_elements(lhs, one, other),
        same_elements(rhs, one, other),
    ensures
        stays_same(
            one,
            other,
            semantics::product_rounds(m.element_wise(), accum, lhs, rhs, n, one),
            semantics::product_rounds(m.element_wise(), accum, lhs, rhs, n, other),
        ),
    decreases n,
{
    if n > 0 {
        let last = (n - 1) as nat;
        let f = m.element_wise();
        lemma_product_alike(m, accum, lhs, rhs, last, one, other);
        let a = semantics::product_rounds(f, accum, lhs, rhs, last, one);
        let b = semantics::product_rounds(f, accum, lhs, rhs, last, other);
        let bounds = seq![accum.sizes[0], accum.sizes[1], lhs.sizes[1]];
        let index = row_major::delinearize(bounds, last);
        row_major::lemma_delinearize(bounds, last);
        assert(index[0] < bounds[0] && index[1] < bounds[1] && index[2] < bounds[2]);
        let p = semantics::at(index[0], index[1]);
        let q = semantics::at(index[0], index[2]);
        let r = semantics::at(index[2], index[1]);
        assert(row_major::in_bounds(accum.sizes, p));
        assert(row_major::in_bounds(lhs.sizes, q));
        assert(row_major::in_bounds(rhs.sizes, r));
        semantics::lemma_address_is_nth(accum, p);
        semantics::lemma_address_is_nth(lhs, q);
        semantics::lemma_address_is_nth(rhs, r);
        assert(one[accum.nth(row_major::linearize(accum.sizes, p))] == other[accum.nth(
            row_major::linearize(accum.sizes, p),
        )]);
        assert(one[lhs.nth(row_major::linearize(lhs.sizes, q))] == other[lhs.nth(
            row_major::linearize(lhs.sizes, q),
        )]);
        assert(one[rhs.nth(row_major::linearize(rhs.sizes, r))] == other[rhs.nth(
            row_major::linearize(rhs.sizes, r),
        )]);
        assert(a[accum.address(p)] == b[accum.address(p)]);
        assert(a[lhs.address(q)] == b[lhs.address(q)]);
        assert(a[rhs.address(r)] == b[rhs.address(r)]);
    }
}

impl Reads for MatMulOp {
    proof fn law_reads(&self, m: Machine, one: Memory, other: Memory) {
        let plan = self.bufferized();
        let lhs = (m.values)(self.op.operands@[0])->Desc_0;
        let rhs = (m.values)(self.op.operands@[1])->Desc_0;
        let accum = (m.values)(self.op.operands@[2])->Desc_0;
        assert(self.reads(0) && self.operands()[0] == self.op.operands@[0]);
        assert(self.reads(1) && self.operands()[1] == self.op.operands@[1]);
        assert(self.reads(2) && self.operands()[2] == self.op.operands@[2]);
        bufferize_laws::law_mat_mul_runs(*self, m, one, accum, lhs, rhs);
        bufferize_laws::law_mat_mul_runs(*self, m, other, accum, lhs, rhs);
        assert(outcomes::replacements(m, one, plan) =~= outcomes::replacements(m, other, plan));
        m.lemma_run_step(one, plan.steps, 1);
        m.lemma_run_step(other, plan.steps, 1);
        assert(m.memory_after(one, plan.steps) == m.multiplied(accum, lhs, rhs, one)) by {
            reveal(Machine::step);
        }
        assert(m.memory_after(other, plan.steps) == m.multiplied(accum, lhs, rhs, other)) by {
            reveal(Machine::step);
        }
        lemma_product_alike(
            m,
            accum,
            lhs,
            rhs,
            row_major::product(seq![accum.sizes[0], accum.sizes[1], lhs.sizes[1]]),
            one,
            other,
        );
        assert forall|lin: nat| lin < accum.count() implies m.memory_after(
            one,
            plan.steps,
        )[#[trigger] accum.nth(lin)] == m.memory_after(other, plan.steps)[accum.nth(lin)] by {
            assert(one[accum.nth(lin)] == other[accum.nth(lin)]);
        }
    }
}

// Slices and shapes
impl Reads for ExtractSliceOp {
    proof fn law_reads(&self, m: Machine, one: Memory, other: Memory) {
        let plan = self.bufferized();
        let source = (m.values)(self.op.operands@[0])->Desc_0;
        let offsets = lowering_laws::param_values(m, self.offsets());
        let sizes = lowering_laws::param_values(m, self.sizes());
        let factors = lowering_laws::param_values(m, self.steps());
        assert(self.reads(0) && self.operands()[0] == self.op.operands@[0]);
        bufferize_laws::lemma_extract_slice_step(*self, m, one);
        bufferize_laws::lemma_extract_slice_step(*self, m, other);
        let view = source.subview(offsets, sizes, factors);
        assert(outcomes::replacements(m, one, plan) =~= seq![Runtime::Desc(view)]);
        assert(outcomes::replacements(m, other, plan) =~= seq![Runtime::Desc(view)]);
        assert forall|lin: nat| lin < view.count() implies one[#[trigger] view.nth(lin)]
            == other[view.nth(lin)] by {
            row_major::lemma_delinearize(sizes, lin);
            let idxs = row_major::delinearize(sizes, lin);
            semantics::law_subview_elements(source, offsets, sizes, factors, idxs);
            let place = semantics::slice_indices(offsets, factors, idxs);
            semantics::lemma_address_is_nth(source, place);
            assert(one[source.nth(row_major::linearize(source.sizes, place))]
                == other[source.nth(row_major::linearize(source.sizes, place))]);
        }
    }
}

impl Reads for InsertSliceOp {
    proof fn law_reads(&self, m: Machine, one: Memory, other: Memory) {
        let plan = self.bufferized();
        let source = (m.values)(self.op.operands@[0])->Desc_0;
        let destination = (m.values)(self.op.operands@[1])->Desc_0;
        let offsets = lowering_laws::param_values(m, self.offsets());
        let sizes = lowering_laws::param_values(m, self.sizes());
        let factors = lowering_laws::param_values(m, self.steps());
        assert(self.reads(0) && self.operands()[0] == self.op.operands@[0]);
        assert(self.reads(1) && self.operands()[1] == self.op.operands@[1]);
        bufferize_laws::lemma_insert_slice_steps(*self, m, one);
        bufferize_laws::lemma_insert_slice_steps(*self, m, other);
        assert(outcomes::replacements(m, one, plan) =~= outcomes::replacements(m, other, plan));
        let view = destination.subview(offsets, sizes, factors);
        let target = |lin: nat| view.nth(lin);
        let value = |lin: nat, mem: Memory|
            mem[source.address(row_major::delinearize(view.sizes, lin))];
        assert forall|lin: nat, a: Memory, b: Memory|
            lin < view.count() && stays_same(one, other, a, b) implies #[trigger] value(lin, a)
            == #[trigger] value(lin, b) by {
            assert(one[source.nth(lin)] == other[source.nth(lin)]);
            assert(a[source.nth(lin)] == b[source.nth(lin)]);
        }
        lemma_filled_alike(target, value, view.count(), one, other);
        assert(semantics::copied(view, source, one) == semantics::filled(
            target,
            value,
            view.count(),
            one,
        ));
        assert(semantics::copied(view, source, other) == semantics::filled(
            target,
            value,
            view.count(),
            other,
        ));
        assert forall|lin: nat| lin < destination.count() implies m.memory_after(
            one,
            plan.steps,
        )[#[trigger] destination.nth(lin)] == m.memory_after(
            other,
            plan.steps,
        )[destination.nth(lin)] by {
            assert(one[destination.nth(lin)] == other[destination.nth(lin)]);
        }
    }
}

impl Reads for ReshapeOp {
    proof fn law_reads(&self, m: Machine, one: Memory, other: Memory) {
        let plan = self.bufferized(m.ctx);
        let source = (m.values)(self.op.operands@[0])->Desc_0;
        let dynamic = lowering_laws::ints_of(m, self.op.operands@.skip(1));
        let sizes = semantics::filled_sizes(
            m.ctx.as_tensor(self.op.result_types@[0])->Some_0.shape,
            dynamic,
        );
        let res = source.reshaped(sizes);
        assert(self.reads(0) && self.operands()[0] == self.op.operands@[0]);
        bufferize_laws::lemma_reshape_step(*self, m, one);
        bufferize_laws::lemma_reshape_step(*self, m, other);
        assert(outcomes::replacements(m, one, plan) =~= seq![Runtime::Desc(res)]);
        assert(outcomes::replacements(m, other, plan) =~= seq![Runtime::Desc(res)]);
        assert forall|lin: nat| lin < res.count() implies one[#[trigger] res.nth(lin)]
            == other[res.nth(lin)] by {
            semantics::law_reshape_keeps_order(source, sizes, lin);
            assert(one[source.nth(lin)] == other[source.nth(lin)]);
        }
    }
}

// Batches of matrix products
impl Reads for BatchMatMulOp {
    proof fn law_reads(&self, m: Machine, one: Memory, other: Memory) {
        let plan = self.bufferized(m.ctx);
        let lhs = (m.values)(self.op.operands@[0])->Desc_0;
        let rhs = (m.values)(self.op.operands@[1])->Desc_0;
        let accum = (m.values)(self.op.operands@[2])->Desc_0;
        assert(self.reads(0) && self.operands()[0] == self.op.operands@[0]);
        assert(self.reads(1) && self.operands()[1] == self.op.operands@[1]);
        assert(self.reads(2) && self.operands()[2] == self.op.operands@[2]);
        bufferize_laws::law_batch_mat_mul_runs(*self, m, one, accum, lhs, rhs);
        bufferize_laws::law_batch_mat_mul_runs(*self, m, other, accum, lhs, rhs);
        effects::lemma_batch_result(*self, m, one);
        effects::lemma_batch_result(*self, m, other);
        assert(outcomes::replacements(m, one, plan) =~= outcomes::replacements(m, other, plan));
        let n = lhs.sizes.len() as int;
        assert forall|lin: nat| lin < accum.count() implies m.memory_after(
            one,
            plan.steps,
        )[#[trigger] accum.nth(lin)] == m.memory_after(other, plan.steps)[accum.nth(lin)] by {
            row_major::lemma_delinearize(accum.sizes, lin);
            let idxs = row_major::delinearize(accum.sizes, lin);
            let batch = idxs.take(n - 2);
            let row = idxs[n - 2];
            let column = idxs[n - 1];
            assert(idxs =~= bufferize_laws::batch_at(batch, row, column));
            assert(row_major::in_bounds(bufferize_laws::batch_sizes(lhs), batch)) by {
                assert forall|d: int| 0 <= d < batch.len() implies #[trigger] batch[d]
                    < bufferize_laws::batch_sizes(lhs)[d] by {
                    assert(idxs[d] < accum.sizes[d]);
                }
            }
            assert(idxs[n - 2] < accum.sizes[n - 2]);
            assert(idxs[n - 1] < accum.sizes[n - 1]);
            let row_one = |k: nat| one[lhs.address(bufferize_laws::batch_at(batch, row, k))];
            let row_other = |k: nat| other[lhs.address(bufferize_laws::batch_at(batch, row, k))];
            let column_one = |k: nat|
                one[rhs.address(bufferize_laws::batch_at(batch, k, column))];
            let column_other = |k: nat|
                other[rhs.address(bufferize_laws::batch_at(batch, k, column))];
            let inner = bufferize_laws::columns(lhs);
            assert forall|k: nat| k < inner implies #[trigger] row_one(k) == row_other(k) by {
                let at = bufferize_laws::batch_at(batch, row, k);
                bufferize_laws::lemma_batch_in_bounds(lhs.sizes, batch, row, k);
                semantics::lemma_address_is_nth(lhs, at);
                assert(one[lhs.nth(row_major::linearize(lhs.sizes, at))]
                    == other[lhs.nth(row_major::linearize(lhs.sizes, at))]);
            }
            assert(bufferize_laws::batch_sizes(rhs) =~= bufferize_laws::batch_sizes(lhs));
            assert forall|k: nat| k < inner implies #[trigger] column_one(k) == column_other(k) by {
                let at = bufferize_laws::batch_at(batch, k, column);
                bufferize_laws::lemma_batch_in_bounds(rhs.sizes, batch, k, column);
                semantics::lemma_address_is_nth(rhs, at);
                assert(one[rhs.nth(row_major::linearize(rhs.sizes, at))]
                    == other[rhs.nth(row_major::linearize(rhs.sizes, at))]);
            }
            bufferize_laws::lemma_sum_same(
                m.element_wise(),
                one[accum.nth(lin)],
                row_one,
                column_one,
                row_other,
                column_other,
                inner,
            );
            assert(one[accum.nth(lin)] == other[accum.nth(lin)]);
            assert(accum.nth(lin) == accum.address(bufferize_laws::batch_at(batch, row, column)));
            assert(bufferize_laws::batch_element(m, accum, lhs, rhs, one, batch, row, column)
                == semantics::sum_of_products(
                m.element_wise(),
                one[accum.nth(lin)],
                row_one,
                column_one,
                inner,
            ));
            assert(bufferize_laws::batch_element(m, accum, lhs, rhs, other, batch, row, column)
                == semantics::sum_of_products(
                m.element_wise(),
                other[accum.nth(lin)],
                row_other,
                column_other,
                inner,
            ));
        }
    }
}

// Loops and functions
impl Reads for ForOp {
    proof fn law_reads(&self, m: Machine, one: Memory, other: Memory) {
    }
}

impl Reads for PointerLoadOp {
    proof fn law_reads(&self, m: Machine, one: Memory, other: Memory) {
    }
}

impl Reads for FuncOp {
    proof fn law_reads(&self, m: Machine, one: Memory, other: Memory) {
    }
}

} // verus!
