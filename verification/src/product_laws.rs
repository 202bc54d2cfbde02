//! Products of matrices of integers, in numbers.

use crate::ir::{IntegerType, TypeHandle, TypeView};
use crate::memref::lowering_laws;
use crate::memref::ops as memref_ops;
use crate::semantics;
use crate::semantics::{Desc, Machine, Memory};
use crate::tensor::bufferize_laws;
use crate::tensor::effects::Effects;
use crate::tensor::op_interfaces::{BufferizableOpInterface, RewriteView};
use crate::tensor::ops::{BatchMatMulOp, MatMulOp};
use vstd::arithmetic::div_mod::*;
use vstd::arithmetic::power2::*;
use vstd::prelude::*;

verus! {

/// The sum of the first `n` numbers.
pub open spec fn sum(numbers: spec_fn(nat) -> int, n: nat) -> int
    decreases n,
{
    if n == 0 {
        0
    } else {
        sum(numbers, (n - 1) as nat) + numbers((n - 1) as nat)
    }
}

/// The bits of an integer type.
pub open spec fn in_width(ty: IntegerType, bits: int) -> bool {
    0 <= bits < pow2(ty.width as nat)
}

proof fn lemma_number_of_bits(ty: IntegerType, number: int)
    ensures
        semantics::number_of(ty, semantics::bits_of(number, ty.width as nat)) % (pow2(
            ty.width as nat,
        ) as int) == number % (pow2(ty.width as nat) as int),
{
    let modulus = pow2(ty.width as nat) as int;
    let bits = semantics::bits_of(number, ty.width as nat);
    lemma_pow2_pos(ty.width as nat);
    lemma_mod_multiples_vanish(-1, bits, modulus);
    lemma_mod_twice(number, modulus);
}

/// Adding products of integers one after the other to a start gives the bits of the number that
/// the start stands for plus the sum of the products of the numbers.
pub proof fn law_integer_products(
    m: Machine,
    ty: IntegerType,
    start: int,
    row: spec_fn(nat) -> int,
    column: spec_fn(nat) -> int,
    n: nat,
)
    requires
        m.ctx.get(m.element_type) == TypeView::Integer(ty),
        in_width(ty, start),
    ensures
        semantics::sum_of_products(m.element_wise(), start, row, column, n) == semantics::bits_of(
            semantics::number_of(ty, start) + sum(
                |k: nat| semantics::number_of(ty, row(k)) * semantics::number_of(ty, column(k)),
                n,
            ),
            ty.width as nat,
        ),
    decreases n,
{
    let modulus = pow2(ty.width as nat) as int;
    let first = semantics::number_of(ty, start);
    let terms = |k: nat| semantics::number_of(ty, row(k)) * semantics::number_of(ty, column(k));
    lemma_pow2_pos(ty.width as nat);
    if n == 0 {
        lemma_mod_multiples_vanish(-1, start, modulus);
        lemma_small_mod(start as nat, modulus as nat);
    } else {
        let last = (n - 1) as nat;
        law_integer_products(m, ty, start, row, column, last);
        let before = first + sum(terms, last);
        let term = terms(last);
        let x = semantics::number_of(ty, semantics::bits_of(before, ty.width as nat));
        let y = semantics::number_of(ty, semantics::bits_of(term, ty.width as nat));
        lemma_number_of_bits(ty, before);
        lemma_number_of_bits(ty, term);
        lemma_add_mod_noop(x, y, modulus);
        lemma_add_mod_noop(before, term, modulus);
        assert(before + term == first + sum(terms, n));
    }
}

/// The number at an address.
pub open spec fn number_at(ty: IntegerType, memory: Memory, address: int) -> int {
    semantics::number_of(ty, memory[address])
}

/// A bufferized product of matrices of integers leaves, at each row and column of what takes the
/// place of the result, the bits of the number of the accumulator plus the sum over `k` of
/// `lhs[row, k] * rhs[k, column]`.
pub proof fn law_mat_mul_numbers(
    op: MatMulOp,
    m: Machine,
    memory: Memory,
    ty: IntegerType,
    row: nat,
    column: nat,
)
    requires
        op.ready(m.ctx),
        op.runnable(m),
        m.ctx.get(m.element_type) == TypeView::Integer(ty),
        ({
            let accum = (m.values)(op.op.operands@[2])->Desc_0;
            &&& row < accum.sizes[0] && column < accum.sizes[1]
            &&& in_width(ty, memory[accum.address(seq![row, column])])
        }),
    ensures
        ({
            let lhs = (m.values)(op.op.operands@[0])->Desc_0;
            let rhs = (m.values)(op.op.operands@[1])->Desc_0;
            let accum = (m.values)(op.op.operands@[2])->Desc_0;
            op.rewritten(m.ctx) matches RewriteView::Replaced(plan) && m.memory_after(
                memory,
                plan.steps,
            )[accum.address(seq![row, column])] == semantics::bits_of(
                number_at(ty, memory, accum.address(seq![row, column])) + sum(
                    |k: nat|
                        number_at(ty, memory, lhs.address(seq![row, k])) * number_at(
                            ty,
                            memory,
                            rhs.address(seq![k, column]),
                        ),
                    lhs.sizes[1],
                ),
                ty.width as nat,
            )
        }),
{
    let lhs = (m.values)(op.op.operands@[0])->Desc_0;
    let rhs = (m.values)(op.op.operands@[1])->Desc_0;
    let accum = (m.values)(op.op.operands@[2])->Desc_0;
    bufferize_laws::law_mat_mul_runs(op, m, memory, accum, lhs, rhs);
    lemma_product_number(m, ty, accum, lhs, rhs, memory, row, column);
}

proof fn lemma_product_number(
    m: Machine,
    ty: IntegerType,
    accum: Desc,
    lhs: Desc,
    rhs: Desc,
    memory: Memory,
    row: nat,
    column: nat,
)
    requires
        m.ctx.get(m.element_type) == TypeView::Integer(ty),
        in_width(ty, memory[accum.address(seq![row, column])]),
    ensures
        semantics::product_element(
            m.element_wise(),
            accum,
            lhs,
            rhs,
            memory,
            row,
            column,
            lhs.sizes[1],
        ) == semantics::bits_of(
            number_at(ty, memory, accum.address(seq![row, column])) + sum(
                |k: nat|
                    number_at(ty, memory, lhs.address(seq![row, k])) * number_at(
                        ty,
                        memory,
                        rhs.address(seq![k, column]),
                    ),
                lhs.sizes[1],
            ),
            ty.width as nat,
        ),
{
    let start = memory[accum.address(semantics::at(row, column))];
    let rows = |k: nat| memory[lhs.address(semantics::at(row, k))];
    let columns = |k: nat| memory[rhs.address(semantics::at(k, column))];
    law_integer_products(m, ty, start, rows, columns, lhs.sizes[1]);
    lemma_sum_alike(
        |k: nat| semantics::number_of(ty, rows(k)) * semantics::number_of(ty, columns(k)),
        |k: nat|
            number_at(ty, memory, lhs.address(seq![row, k])) * number_at(
                ty,
                memory,
                rhs.address(seq![k, column]),
            ),
        lhs.sizes[1],
    );
    assert(semantics::product_element(
        m.element_wise(),
        accum,
        lhs,
        rhs,
        memory,
        row,
        column,
        lhs.sizes[1],
    ) == semantics::sum_of_products(m.element_wise(), start, rows, columns, lhs.sizes[1]));
}

proof fn lemma_sum_alike(a: spec_fn(nat) -> int, b: spec_fn(nat) -> int, n: nat)
    requires
        forall|k: nat| k < n ==> #[trigger] a(k) == b(k),
    ensures
        sum(a, n) == sum(b, n),
    decreases n,
{
    if n > 0 {
        lemma_sum_alike(a, b, (n - 1) as nat);
        assert(a((n - 1) as nat) == b((n - 1) as nat));
    }
}

/// A lowered product of matrices of integers leaves, at each row and column of the first operand,
/// the bits of the number that was there plus the sum over `k` of `lhs[row, k] * rhs[k, column]`,
/// and the rest of memory as it was.
pub proof fn law_memref_mat_mul_numbers(
    op: memref_ops::MatMulOp,
    m: Machine,
    memory: Memory,
    element_ty: TypeHandle,
    ty: IntegerType,
    row: nat,
    column: nat,
)
    requires
        op.op.operands@.len() == 3,
        lowering_laws::is_memref(m, op.op.operands@[0], 2),
        lowering_laws::is_memref(m, op.op.operands@[1], 2),
        lowering_laws::is_memref(m, op.op.operands@[2], 2),
        element_ty == m.element_type,
        m.ctx.get(element_ty) == TypeView::Integer(ty),
        ({
            let accum = (m.values)(op.op.operands@[0])->Desc_0;
            let lhs = (m.values)(op.op.operands@[1])->Desc_0;
            let rhs = (m.values)(op.op.operands@[2])->Desc_0;
            &&& semantics::multipliable(accum, lhs, rhs)
            &&& row < accum.sizes[0] && column < accum.sizes[1]
            &&& in_width(ty, memory[accum.address(seq![row, column])])
        }),
    ensures
        ({
            let accum = (m.values)(op.op.operands@[0])->Desc_0;
            let lhs = (m.values)(op.op.operands@[1])->Desc_0;
            let rhs = (m.values)(op.op.operands@[2])->Desc_0;
            let after = m.memory_after(memory, op.lowered(m.ctx, element_ty).steps);
            &&& after[accum.address(seq![row, column])] == semantics::bits_of(
                number_at(ty, memory, accum.address(seq![row, column])) + sum(
                    |k: nat|
                        number_at(ty, memory, lhs.address(seq![row, k])) * number_at(
                            ty,
                            memory,
                            rhs.address(seq![k, column]),
                        ),
                    lhs.sizes[1],
                ),
                ty.width as nat,
            )
            &&& forall|address: int|
                accum.avoids(address) ==> #[trigger] after[address] == memory[address]
        }),
{
    let accum = (m.values)(op.op.operands@[0])->Desc_0;
    let lhs = (m.values)(op.op.operands@[1])->Desc_0;
    let rhs = (m.values)(op.op.operands@[2])->Desc_0;
    lowering_laws::law_mat_mul_runs(op, m, memory, element_ty);
    semantics::law_mat_mul(m, accum, lhs, rhs, memory);
    lemma_product_number(m, ty, accum, lhs, rhs, memory, row, column);
    assert(semantics::at(row, column) == seq![row, column]);
}

/// A bufferized product of batches of matrices of integers leaves, at each index of the batch, row
/// and column of the accumulator, the bits of the number that was there plus the sum over `k` of
/// `lhs[.., row, k] * rhs[.., k, column]`.
pub proof fn law_batch_mat_mul_numbers(
    op: BatchMatMulOp,
    m: Machine,
    memory: Memory,
    ty: IntegerType,
    batch: Seq<nat>,
    row: nat,
    column: nat,
)
    requires
        op.ready(m.ctx),
        op.runnable(m),
        m.ctx.get(m.element_type) == TypeView::Integer(ty),
        ({
            let lhs = (m.values)(op.op.operands@[0])->Desc_0;
            let rhs = (m.values)(op.op.operands@[1])->Desc_0;
            let accum = (m.values)(op.op.operands@[2])->Desc_0;
            &&& crate::row_major::in_bounds(bufferize_laws::batch_sizes(lhs), batch)
            &&& row < bufferize_laws::rows(lhs) && column < bufferize_laws::columns(rhs)
            &&& in_width(ty, memory[accum.address(batch + seq![row, column])])
        }),
    ensures
        ({
            let lhs = (m.values)(op.op.operands@[0])->Desc_0;
            let rhs = (m.values)(op.op.operands@[1])->Desc_0;
            let accum = (m.values)(op.op.operands@[2])->Desc_0;
            op.rewritten(m.ctx) matches RewriteView::Replaced(plan) && m.memory_after(
                memory,
                plan.steps,
            )[accum.address(batch + seq![row, column])] == semantics::bits_of(
                number_at(ty, memory, accum.address(batch + seq![row, column])) + sum(
                    |k: nat|
                        number_at(ty, memory, lhs.address(batch + seq![row, k])) * number_at(
                            ty,
                            memory,
                            rhs.address(batch + seq![k, column]),
                        ),
                    bufferize_laws::columns(lhs),
                ),
                ty.width as nat,
            )
        }),
{
    let lhs = (m.values)(op.op.operands@[0])->Desc_0;
    let rhs = (m.values)(op.op.operands@[1])->Desc_0;
    let accum = (m.values)(op.op.operands@[2])->Desc_0;
    let inner = bufferize_laws::columns(lhs);
    bufferize_laws::law_batch_mat_mul_runs(op, m, memory, accum, lhs, rhs);
    assert(bufferize_laws::batch_at(batch, row, column) == batch + seq![row, column]);
    let start = memory[accum.address(bufferize_laws::batch_at(batch, row, column))];
    let rows = |k: nat| memory[lhs.address(bufferize_laws::batch_at(batch, row, k))];
    let columns = |k: nat| memory[rhs.address(bufferize_laws::batch_at(batch, k, column))];
    law_integer_products(m, ty, start, rows, columns, inner);
    lemma_sum_alike(
        |k: nat| semantics::number_of(ty, rows(k)) * semantics::number_of(ty, columns(k)),
        |k: nat|
            number_at(ty, memory, lhs.address(batch + seq![row, k])) * number_at(
                ty,
                memory,
                rhs.address(batch + seq![k, column]),
            ),
        inner,
    );
    assert(bufferize_laws::batch_element(m, accum, lhs, rhs, memory, batch, row, column)
        == semantics::sum_of_products(m.element_wise(), start, rows, columns, inner));
}

} // verus!
