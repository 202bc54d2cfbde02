//! What the plans of the memref dialect do when they run.

use crate::ir::{Context, IntegerType, TypeHandle, TypeView, Value};
use crate::memref::conversions;
use crate::memref::conversions::DescriptorTypes;
use crate::memref::ops::{
    AllocOp, CopyOp, DimOp, GenerateOp, LoadOp, MatMulOp, ReshapeOp, StoreOp, SubviewOp,
};
use crate::memref::slices::SliceParam;
use crate::memref::type_interfaces::Dimension;
use crate::plan;
use crate::plan::{BodyStepView, ElementWiseKind, Ref, StepOf, StepView};
use crate::row_major;
use crate::semantics;
use crate::semantics::{Desc, Machine, Memory, Runtime};
use vstd::arithmetic::div_mod::*;
use vstd::arithmetic::mul::*;
use vstd::arithmetic::power2::*;
use vstd::prelude::*;

verus! {

/// The values of the program are integers.
pub open spec fn are_ints(m: Machine, values: Seq<Value>) -> bool {
    forall|i: int| 0 <= i < values.len() ==> (m.values)(#[trigger] values[i]) is Int
}

/// The integers that values of the program are.
pub open spec fn ints_of(m: Machine, values: Seq<Value>) -> Seq<nat> {
    Seq::new(values.len(), |i: int| (m.values)(values[i])->Int_0)
}

/// The value of the program is a memref of the given rank.
pub open spec fn is_memref(m: Machine, value: Value, rank: nat) -> bool {
    &&& (m.values)(value) is Desc
    &&& (m.values)(value)->Desc_0.wf()
    &&& (m.values)(value)->Desc_0.sizes.len() == rank
}

pub proof fn lemma_filled_sizes_len(shape: Seq<Dimension>, dynamic: Seq<nat>)
    ensures
        semantics::filled_sizes(shape, dynamic).len() == shape.len(),
    decreases shape.len(),
{
    if shape.len() > 0 {
        lemma_filled_sizes_len(shape.drop_last(), dynamic);
        lemma_filled_sizes_len(shape.drop_last(), dynamic.drop_last());
    }
}

/// Running an allocation gives a contiguous memref with the sizes of its type, at an address
/// that was allocated for as many bytes as its elements need.
pub proof fn law_alloc_runs(op: AllocOp, m: Machine, memory: Memory)
    requires
        op.wf(m.ctx),
        are_ints(m, op.op.operands@),
        m.ctx.as_memref(op.op.result_types@[0])->Some_0.shape.len() <= usize::MAX,
    ensures
        ({
            let ty = op.op.result_types@[0];
            let memref = m.ctx.as_memref(ty)->Some_0;
            let sizes = semantics::filled_sizes(memref.shape, ints_of(m, op.op.operands@));
            let bytes = (m.type_size)(memref.element_type) * row_major::product(sizes);
            let steps = op.lowered(m.ctx).steps;
            &&& m.results(memory, steps)[5] == Runtime::Desc(
                Desc {
                    allocated: (m.malloc)(3, bytes),
                    aligned: (m.malloc)(3, bytes),
                    offset: 0,
                    sizes,
                    strides: semantics::row_major_strides(sizes),
                },
            )
            &&& m.memory_after(memory, steps) == memory
        }),
{
    let ty = op.op.result_types@[0];
    let memref = m.ctx.as_memref(ty)->Some_0;
    let dynamic = ints_of(m, op.op.operands@);
    let sizes = semantics::filled_sizes(memref.shape, dynamic);
    let rank = memref.shape.len();
    let steps = op.lowered(m.ctx).steps;
    lemma_filled_sizes_len(memref.shape, dynamic);
    let layout = Desc {
        allocated: 0,
        aligned: 0,
        offset: 0,
        sizes,
        strides: semantics::row_major_strides(sizes),
    };
    let (r0, m0) = m.run(memory, steps, 0);
    assert(m.ints(r0, plan::value_refs(op.op.operands@)) =~= dynamic);
    m.lemma_run_step(memory, steps, 1);
    assert(m.step(r0, memory, steps[0]) == (Runtime::Desc(layout), memory)) by {
        reveal(Machine::step);
    }
    let r1 = m.run(memory, steps, 1).0;
    m.lemma_run_step(memory, steps, 2);
    let element_size = (m.type_size)(memref.element_type);
    assert(m.step(r1, memory, steps[1]) == (Runtime::Int(element_size), memory)) by {
        reveal(Machine::step);
    }
    let r2 = m.run(memory, steps, 2).0;
    m.lemma_run_step(memory, steps, 3);
    let bytes = element_size * row_major::product(sizes);
    assert(m.step(r2, memory, steps[2]) == (Runtime::Int(bytes), memory)) by {
        reveal(Machine::step);
    }
    let r3 = m.run(memory, steps, 3).0;
    m.lemma_run_step(memory, steps, 4);
    let address = (m.malloc)(3, bytes);
    assert(m.step(r3, memory, steps[3]) == (Runtime::Ptr(address), memory)) by {
        reveal(Machine::step);
    }
    let r4 = m.run(memory, steps, 4).0;
    m.lemma_run_step(memory, steps, 5);
    assert(m.step(r4, memory, steps[4]) == (Runtime::Int(0), memory)) by {
        reveal(Machine::step);
    }
    let r5 = m.run(memory, steps, 5).0;
    assert(r5[0] == Runtime::Desc(layout));
    assert(m.ints(r5, plan::size_refs(0, rank)) =~= sizes);
    assert(m.ints(r5, plan::stride_refs(0, rank)) =~= semantics::row_major_strides(sizes));
    m.lemma_run_step(memory, steps, 6);
    assert(m.step(r5, memory, steps[5]) == (
        Runtime::Desc(
            Desc {
                allocated: address,
                aligned: address,
                offset: 0,
                sizes,
                strides: semantics::row_major_strides(sizes),
            },
        ),
        memory,
    )) by {
        reveal(Machine::step);
    }
}

/// Running a reshape gives the storage of the source with the row-major layout of the new
/// sizes.
pub proof fn law_reshape_runs(op: ReshapeOp, m: Machine, memory: Memory)
    requires
        op.wf(m.ctx),
        (m.values)(op.op.operands@[0]) is Desc,
        are_ints(m, op.op.operands@.skip(1)),
        m.ctx.as_memref(op.op.result_types@[0])->Some_0.shape.len() <= usize::MAX,
    ensures
        ({
            let shape = m.ctx.as_memref(op.op.result_types@[0])->Some_0.shape;
            let sizes = semantics::filled_sizes(shape, ints_of(m, op.op.operands@.skip(1)));
            let source = (m.values)(op.op.operands@[0])->Desc_0;
            let steps = op.lowered(m.ctx).steps;
            &&& m.results(memory, steps)[4] == Runtime::Desc(source.reshaped(sizes))
            &&& m.memory_after(memory, steps) == memory
        }),
{
    let shape = m.ctx.as_memref(op.op.result_types@[0])->Some_0.shape;
    let dynamic = ints_of(m, op.op.operands@.skip(1));
    let sizes = semantics::filled_sizes(shape, dynamic);
    let steps = op.lowered(m.ctx).steps;
    lemma_filled_sizes_len(shape, dynamic);
    let source = (m.values)(op.op.operands@[0])->Desc_0;
    let layout = Desc {
        allocated: 0,
        aligned: 0,
        offset: 0,
        sizes,
        strides: semantics::row_major_strides(sizes),
    };
    let r0 = m.run(memory, steps, 0).0;
    assert(m.ints(r0, plan::value_refs(op.op.operands@.skip(1))) =~= dynamic);
    m.lemma_run_step(memory, steps, 1);
    assert(m.step(r0, memory, steps[0]) == (Runtime::Desc(layout), memory)) by {
        reveal(Machine::step);
    }
    let r1 = m.run(memory, steps, 1).0;
    m.lemma_run_step(memory, steps, 2);
    assert(m.step(r1, memory, steps[1]) == (Runtime::Ptr(source.allocated), memory)) by {
        reveal(Machine::step);
    }
    let r2 = m.run(memory, steps, 2).0;
    m.lemma_run_step(memory, steps, 3);
    assert(m.step(r2, memory, steps[2]) == (Runtime::Ptr(source.aligned), memory)) by {
        reveal(Machine::step);
    }
    let r3 = m.run(memory, steps, 3).0;
    m.lemma_run_step(memory, steps, 4);
    assert(m.step(r3, memory, steps[3]) == (Runtime::Int(source.offset), memory)) by {
        reveal(Machine::step);
    }
    let r4 = m.run(memory, steps, 4).0;
    assert(r4[0] == Runtime::Desc(layout));
    assert(m.ints(r4, plan::size_refs(0, shape.len())) =~= sizes);
    assert(m.ints(r4, plan::stride_refs(0, shape.len())) =~= semantics::row_major_strides(sizes));
    m.lemma_run_step(memory, steps, 5);
    assert(m.step(r4, memory, steps[4]) == (Runtime::Desc(source.reshaped(sizes)), memory)) by {
        reveal(Machine::step);
    }
}

/// Running a store puts the value at the address of the element.
pub proof fn law_store_runs(op: StoreOp, m: Machine, memory: Memory)
    requires
        op.op.operands@.len() >= 2,
        (m.values)(op.op.operands@[0]) is Element,
        (m.values)(op.op.operands@[1]) is Desc,
        are_ints(m, op.op.operands@.skip(2)),
    ensures
        m.memory_after(memory, op.lowered().steps) == memory.insert(
            (m.values)(op.op.operands@[1])->Desc_0.address(ints_of(m, op.op.operands@.skip(2))),
            (m.values)(op.op.operands@[0])->Element_0,
        ),
{
    let steps = op.lowered().steps;
    let indices = ints_of(m, op.op.operands@.skip(2));
    let memref = (m.values)(op.op.operands@[1])->Desc_0;
    let r0 = m.run(memory, steps, 0).0;
    assert(m.ints(r0, plan::value_refs(op.op.operands@.skip(2))) =~= indices);
    m.lemma_run_step(memory, steps, 1);
    assert(m.step(r0, memory, steps[0]) == (Runtime::Ptr(memref.address(indices)), memory)) by {
        reveal(Machine::step);
    }
    let r1 = m.run(memory, steps, 1).0;
    m.lemma_run_step(memory, steps, 2);
    assert(m.step(r1, memory, steps[1]).1 == memory.insert(
        memref.address(indices),
        (m.values)(op.op.operands@[0])->Element_0,
    )) by {
        reveal(Machine::step);
    }
}

/// Running a load gives the element, and leaves memory alone.
pub proof fn law_load_runs(op: LoadOp, m: Machine, memory: Memory)
    requires
        op.op.operands@.len() >= 1,
        (m.values)(op.op.operands@[0]) is Desc,
        are_ints(m, op.op.operands@.skip(1)),
    ensures
        m.results(memory, op.lowered().steps)[1] == Runtime::Element(
            memory[(m.values)(op.op.operands@[0])->Desc_0.address(
                ints_of(m, op.op.operands@.skip(1)),
            )],
        ),
        m.memory_after(memory, op.lowered().steps) == memory,
{
    let steps = op.lowered().steps;
    let indices = ints_of(m, op.op.operands@.skip(1));
    let memref = (m.values)(op.op.operands@[0])->Desc_0;
    let r0 = m.run(memory, steps, 0).0;
    assert(m.ints(r0, plan::value_refs(op.op.operands@.skip(1))) =~= indices);
    m.lemma_run_step(memory, steps, 1);
    assert(m.step(r0, memory, steps[0]) == (Runtime::Ptr(memref.address(indices)), memory)) by {
        reveal(Machine::step);
    }
    let r1 = m.run(memory, steps, 1).0;
    m.lemma_run_step(memory, steps, 2);
    assert(m.step(r1, memory, steps[1]) == (
        Runtime::Element(memory[memref.address(indices)]),
        memory,
    )) by {
        reveal(Machine::step);
    }
}

/// Running a query of a dimension gives the size in it, whether its number is known or not.
pub proof fn law_dim_runs(op: DimOp, m: Machine, memory: Memory, constant: Option<usize>)
    requires
        op.op.operands@.len() == 2,
        (m.values)(op.op.operands@[0]) is Desc,
        (m.values)(op.op.operands@[1]) is Int,
        constant matches Some(dim) ==> (m.values)(op.op.operands@[1])->Int_0 == dim,
    ensures
        m.results(memory, op.lowered(constant).steps)[0] == Runtime::Int(
            (m.values)(
                op.op.operands@[0],
            )->Desc_0.sizes[(m.values)(op.op.operands@[1])->Int_0 as int],
        ),
{
    let steps = op.lowered(constant).steps;
    m.lemma_run_step(memory, steps, 1);
    reveal(Machine::step);
}

/// The indices of a loop are the index of the round.
proof fn lemma_inductions(
    m: Machine,
    outer: Seq<Runtime>,
    index: Seq<nat>,
    results: Seq<Runtime>,
    rank: nat,
)
    requires
        index.len() == rank,
        rank <= usize::MAX,
    ensures
        m.body_ints(outer, index, results, plan::induction_refs(rank)) == index,
{
    assert(m.body_ints(outer, index, results, plan::induction_refs(rank)) =~= index);
}

/// The results of the steps before the loop of a plan that goes over all indices, and the
/// bounds of the loop.
proof fn lemma_for_each_index(
    m: Machine,
    memory: Memory,
    memref: Value,
    rank: nat,
    body: Seq<BodyStepView>,
)
    requires
        is_memref(m, memref, rank),
        rank <= usize::MAX,
    ensures
        ({
            let steps = conversions::for_each_index(Ref::Value(memref), rank, body).steps;
            let desc = (m.values)(memref)->Desc_0;
            let outer = m.run(memory, steps, 3).0;
            m.memory_after(memory, steps) == m.rounds(
                outer,
                desc.sizes,
                memory,
                body,
                desc.count(),
            )
        }),
{
    let steps = conversions::for_each_index(Ref::Value(memref), rank, body).steps;
    let desc = (m.values)(memref)->Desc_0;
    let r0 = m.run(memory, steps, 0).0;
    m.lemma_run_step(memory, steps, 1);
    assert(m.step(r0, memory, steps[0]) == (Runtime::Desc(desc), memory)) by {
        reveal(Machine::step);
    }
    let r1 = m.run(memory, steps, 1).0;
    m.lemma_run_step(memory, steps, 2);
    assert(m.step(r1, memory, steps[1]) == (Runtime::Int(0), memory)) by {
        reveal(Machine::step);
    }
    let r2 = m.run(memory, steps, 2).0;
    m.lemma_run_step(memory, steps, 3);
    assert(m.step(r2, memory, steps[2]) == (Runtime::Int(1), memory)) by {
        reveal(Machine::step);
    }
    let outer = m.run(memory, steps, 3).0;
    assert(outer[0] == Runtime::Desc(desc));
    assert(outer[1] == Runtime::Int(0));
    assert(outer[2] == Runtime::Int(1));
    assert(m.ints(outer, plan::size_refs(0, rank)) =~= desc.sizes);
    m.lemma_run_step(memory, steps, 4);
    assert(m.step(outer, memory, steps[3]).1 == m.rounds(
        outer,
        desc.sizes,
        memory,
        body,
        desc.count(),
    )) by {
        reveal(Machine::step);
    }
}

/// Running a copy copies the elements one after the other.
pub proof fn law_copy_runs(op: CopyOp, m: Machine, memory: Memory, element_ty: TypeHandle)
    requires
        op.wf(m.ctx),
        is_memref(
            m,
            op.op.operands@[0],
            m.ctx.as_memref(op.op.operands@[0].ty)->Some_0.shape.len(),
        ),
        (m.values)(op.op.operands@[1]) is Desc,
        m.ctx.as_memref(op.op.operands@[0].ty)->Some_0.shape.len() <= usize::MAX,
    ensures
        m.memory_after(memory, op.lowered(m.ctx, element_ty).steps) == semantics::copied(
            (m.values)(op.op.operands@[0])->Desc_0,
            (m.values)(op.op.operands@[1])->Desc_0,
            memory,
        ),
{
    let rank = m.ctx.as_memref(op.op.operands@[0].ty)->Some_0.shape.len();
    let destination = (m.values)(op.op.operands@[0])->Desc_0;
    let source = (m.values)(op.op.operands@[1])->Desc_0;
    let body = conversions::copy_body(
        element_ty,
        Ref::Value(op.op.operands@[0]),
        Ref::Value(op.op.operands@[1]),
        rank,
    );
    let steps = op.lowered(m.ctx, element_ty).steps;
    lemma_for_each_index(m, memory, op.op.operands@[0], rank, body);
    let outer = m.run(memory, steps, 3).0;
    lemma_copy_rounds(
        m,
        outer,
        memory,
        element_ty,
        op.op.operands@[0],
        op.op.operands@[1],
        rank,
        destination.count(),
    );
}

proof fn lemma_copy_rounds(
    m: Machine,
    outer: Seq<Runtime>,
    memory: Memory,
    element_ty: TypeHandle,
    destination: Value,
    source: Value,
    rank: nat,
    n: nat,
)
    requires
        is_memref(m, destination, rank),
        rank <= usize::MAX,
        (m.values)(source) is Desc,
        n <= (m.values)(destination)->Desc_0.count(),
    ensures
        ({
            let d = (m.values)(destination)->Desc_0;
            let s = (m.values)(source)->Desc_0;
            m.rounds(
                outer,
                d.sizes,
                memory,
                conversions::copy_body(
                    element_ty,
                    Ref::Value(destination),
                    Ref::Value(source),
                    rank,
                ),
                n,
            ) == semantics::filled(
                |lin: nat| d.nth(lin),
                |lin: nat, mem: Memory|
                    mem[s.address(row_major::delinearize(d.sizes, lin))],
                n,
                memory,
            )
        }),
    decreases n,
{
    if n > 0 {
        let d = (m.values)(destination)->Desc_0;
        let s = (m.values)(source)->Desc_0;
        let body = conversions::copy_body(
            element_ty,
            Ref::Value(destination),
            Ref::Value(source),
            rank,
        );
        let last = (n - 1) as nat;
        lemma_copy_rounds(m, outer, memory, element_ty, destination, source, rank, last);
        let before = m.rounds(outer, d.sizes, memory, body, last);
        let index = row_major::delinearize(d.sizes, last);
        row_major::lemma_delinearize(d.sizes, last);
        let r0 = m.body(outer, index, before, body, 0).0;
        lemma_inductions(m, outer, index, r0, rank);
        m.lemma_body_step(outer, index, before, body, 1);
        let element = before[s.address(index)];
        assert(m.body_step(outer, index, r0, before, body[0]) == (
            Runtime::Element(element),
            before,
        )) by {
            reveal(Machine::body_step);
        }
        let r1 = m.body(outer, index, before, body, 1).0;
        lemma_inductions(m, outer, index, r1, rank);
        m.lemma_body_step(outer, index, before, body, 2);
        assert(m.body_step(outer, index, r1, before, body[1]).1 == before.insert(
            d.address(index),
            element,
        )) by {
            reveal(Machine::body_step);
        }
    }
}

/// The elements are of the given type. If they are divided, it is one of integers or
/// floating-point numbers.
pub open spec fn has_numbers(m: Machine, kind: ElementWiseKind, element_ty: TypeHandle) -> bool {
    &&& element_ty == m.element_type
    &&& kind is Div ==> m.ctx.get(element_ty) is Integer || m.ctx.get(element_ty) is FP16
        || m.ctx.get(element_ty) is FP32 || m.ctx.get(element_ty) is FP64
}

proof fn lemma_number_bits(ty: IntegerType, bits: int)
    ensures
        semantics::number_of(ty, bits) % (pow2(ty.width as nat) as int) == bits % (pow2(
            ty.width as nat,
        ) as int),
{
    let modulus = pow2(ty.width as nat) as int;
    lemma_pow2_pos(ty.width as nat);
    lemma_mod_multiples_vanish(-1, bits, modulus);
}

/// The instruction that is selected for elements of a type computes the sum, difference, product
/// or quotient of the numbers that the elements stand for, by the meaning that the type gives
/// them.
pub proof fn law_selected_arithmetic(
    kind: ElementWiseKind,
    m: Machine,
    element_ty: TypeHandle,
    a: int,
    b: int,
)
    requires
        has_numbers(m, kind, element_ty),
    ensures
        m.arith(conversions::arith_for(kind, m.ctx, element_ty), a, b) == m.element_result(
            kind,
            a,
            b,
        ),
{
    if let TypeView::Integer(ty) = m.ctx.get(element_ty) {
        let modulus = pow2(ty.width as nat) as int;
        let x = semantics::number_of(ty, a);
        let y = semantics::number_of(ty, b);
        lemma_pow2_pos(ty.width as nat);
        lemma_number_bits(ty, a);
        lemma_number_bits(ty, b);
        lemma_add_mod_noop(x, y, modulus);
        lemma_add_mod_noop(a, b, modulus);
        lemma_sub_mod_noop(x, y, modulus);
        lemma_sub_mod_noop(a, b, modulus);
        lemma_mul_mod_noop(x, y, modulus);
        lemma_mul_mod_noop(a, b, modulus);
    }
}

/// Running an element-wise operation combines the elements one after the other.
pub proof fn law_element_wise_runs(
    kind: ElementWiseKind,
    m: Machine,
    memory: Memory,
    element_ty: TypeHandle,
    operands: Seq<Value>,
)
    requires
        conversions::element_wise_wf(m.ctx, operands),
        is_memref(m, operands[0], m.ctx.as_memref(operands[0].ty)->Some_0.shape.len()),
        (m.values)(operands[1]) is Desc,
        (m.values)(operands[2]) is Desc,
        m.ctx.as_memref(operands[0].ty)->Some_0.shape.len() <= usize::MAX,
        has_numbers(m, kind, element_ty),
    ensures
        m.memory_after(
            memory,
            conversions::element_wise_lowered(kind, m.ctx, element_ty, operands).steps,
        ) == semantics::combined(
            m.element_wise(),
            kind,
            (m.values)(operands[0])->Desc_0,
            (m.values)(operands[1])->Desc_0,
            (m.values)(operands[2])->Desc_0,
            memory,
        ),
{
    let rank = m.ctx.as_memref(operands[0].ty)->Some_0.shape.len();
    let steps = conversions::element_wise_lowered(kind, m.ctx, element_ty, operands).steps;
    let body = conversions::element_wise_body(
        conversions::arith_for(kind, m.ctx, element_ty),
        element_ty,
        Ref::Value(operands[0]),
        Ref::Value(operands[1]),
        Ref::Value(operands[2]),
        rank,
    );
    lemma_for_each_index(m, memory, operands[0], rank, body);
    let outer = m.run(memory, steps, 3).0;
    lemma_element_wise_rounds(
        kind,
        m,
        outer,
        memory,
        element_ty,
        operands,
        rank,
        (m.values)(operands[0])->Desc_0.count(),
    );
}

proof fn lemma_element_wise_rounds(
    kind: ElementWiseKind,
    m: Machine,
    outer: Seq<Runtime>,
    memory: Memory,
    element_ty: TypeHandle,
    operands: Seq<Value>,
    rank: nat,
    n: nat,
)
    requires
        is_memref(m, operands[0], rank),
        (m.values)(operands[1]) is Desc,
        (m.values)(operands[2]) is Desc,
        rank <= usize::MAX,
        n <= (m.values)(operands[0])->Desc_0.count(),
        has_numbers(m, kind, element_ty),
    ensures
        ({
            let res = (m.values)(operands[0])->Desc_0;
            let lhs = (m.values)(operands[1])->Desc_0;
            let rhs = (m.values)(operands[2])->Desc_0;
            m.rounds(
                outer,
                res.sizes,
                memory,
                conversions::element_wise_body(
                    conversions::arith_for(kind, m.ctx, element_ty),
                    element_ty,
                    Ref::Value(operands[0]),
                    Ref::Value(operands[1]),
                    Ref::Value(operands[2]),
                    rank,
                ),
                n,
            ) == semantics::filled(
                |lin: nat| res.nth(lin),
                |lin: nat, mem: Memory|
                    (m.element_wise())(
                        kind,
                        mem[lhs.address(row_major::delinearize(res.sizes, lin))],
                        mem[rhs.address(row_major::delinearize(res.sizes, lin))],
                    ),
                n,
                memory,
            )
        }),
    decreases n,
{
    if n > 0 {
        let res = (m.values)(operands[0])->Desc_0;
        let body = conversions::element_wise_body(
            conversions::arith_for(kind, m.ctx, element_ty),
            element_ty,
            Ref::Value(operands[0]),
            Ref::Value(operands[1]),
            Ref::Value(operands[2]),
            rank,
        );
        let last = (n - 1) as nat;
        lemma_element_wise_rounds(kind, m, outer, memory, element_ty, operands, rank, last);
        let before = m.rounds(outer, res.sizes, memory, body, last);
        let index = row_major::delinearize(res.sizes, last);
        row_major::lemma_delinearize(res.sizes, last);
        let lhs = (m.values)(operands[1])->Desc_0;
        let rhs = (m.values)(operands[2])->Desc_0;
        let a = before[lhs.address(index)];
        let b = before[rhs.address(index)];
        let c = (m.element_wise())(kind, a, b);
        law_selected_arithmetic(kind, m, element_ty, a, b);
        let r0 = m.body(outer, index, before, body, 0).0;
        lemma_inductions(m, outer, index, r0, rank);
        m.lemma_body_step(outer, index, before, body, 1);
        assert(m.body_step(outer, index, r0, before, body[0]) == (Runtime::Element(a), before)) by {
            reveal(Machine::body_step);
        }
        let r1 = m.body(outer, index, before, body, 1).0;
        lemma_inductions(m, outer, index, r1, rank);
        m.lemma_body_step(outer, index, before, body, 2);
        assert(m.body_step(outer, index, r1, before, body[1]) == (Runtime::Element(b), before)) by {
            reveal(Machine::body_step);
        }
        let r2 = m.body(outer, index, before, body, 2).0;
        m.lemma_body_step(outer, index, before, body, 3);
        assert(m.body_step(outer, index, r2, before, body[2]) == (Runtime::Element(c), before)) by {
            reveal(Machine::body_step);
        }
        let r3 = m.body(outer, index, before, body, 3).0;
        lemma_inductions(m, outer, index, r3, rank);
        m.lemma_body_step(outer, index, before, body, 4);
        assert(m.body_step(outer, index, r3, before, body[3]).1 == before.insert(
            res.address(index),
            c,
        )) by {
            reveal(Machine::body_step);
        }
    }
}

/// Running a generate fills the memref with what the region yields for each index.
pub proof fn law_generate_runs(op: GenerateOp, m: Machine, memory: Memory)
    requires
        op.wf(m.ctx),
        is_memref(
            m,
            op.op.operands@[0],
            m.ctx.as_memref(op.op.operands@[0].ty)->Some_0.shape.len(),
        ),
        m.ctx.as_memref(op.op.operands@[0].ty)->Some_0.shape.len() <= usize::MAX,
    ensures
        m.memory_after(memory, op.lowered(m.ctx).steps) == semantics::generated(
            m.region,
            (m.values)(op.op.operands@[0])->Desc_0,
            memory,
        ),
{
    let memref = op.op.operands@[0];
    let rank = m.ctx.as_memref(memref.ty)->Some_0.shape.len();
    let steps = op.lowered(m.ctx).steps;
    lemma_for_each_index(
        m,
        memory,
        memref,
        rank,
        conversions::generate_body(Ref::Value(memref), rank),
    );
    let outer = m.run(memory, steps, 3).0;
    lemma_generate_rounds(m, outer, memory, memref, rank, (m.values)(memref)->Desc_0.count());
}

proof fn lemma_generate_rounds(
    m: Machine,
    outer: Seq<Runtime>,
    memory: Memory,
    memref: Value,
    rank: nat,
    n: nat,
)
    requires
        is_memref(m, memref, rank),
        rank <= usize::MAX,
        n <= (m.values)(memref)->Desc_0.count(),
    ensures
        ({
            let d = (m.values)(memref)->Desc_0;
            m.rounds(
                outer,
                d.sizes,
                memory,
                conversions::generate_body(Ref::Value(memref), rank),
                n,
            ) == semantics::filled(
                |lin: nat| d.nth(lin),
                |lin: nat, mem: Memory| (m.region)(row_major::delinearize(d.sizes, lin)),
                n,
                memory,
            )
        }),
    decreases n,
{
    if n > 0 {
        let d = (m.values)(memref)->Desc_0;
        let body = conversions::generate_body(Ref::Value(memref), rank);
        let last = (n - 1) as nat;
        lemma_generate_rounds(m, outer, memory, memref, rank, last);
        let before = m.rounds(outer, d.sizes, memory, body, last);
        let index = row_major::delinearize(d.sizes, last);
        row_major::lemma_delinearize(d.sizes, last);
        let r0 = m.body(outer, index, before, body, 0).0;
        m.lemma_body_step(outer, index, before, body, 1);
        let element = (m.region)(index);
        assert(m.body_step(outer, index, r0, before, body[0]) == (
            Runtime::Element(element),
            before,
        )) by {
            reveal(Machine::body_step);
        }
        let r1 = m.body(outer, index, before, body, 1).0;
        lemma_inductions(m, outer, index, r1, rank);
        m.lemma_body_step(outer, index, before, body, 2);
        assert(m.body_step(outer, index, r1, before, body[1]).1 == before.insert(
            d.address(index),
            element,
        )) by {
            reveal(Machine::body_step);
        }
    }
}

/// Running a matrix product adds the products to the result memref, in the order of rows,
/// columns and inner indices.
pub proof fn law_mat_mul_runs(op: MatMulOp, m: Machine, memory: Memory, element_ty: TypeHandle)
    requires
        op.op.operands@.len() == 3,
        is_memref(m, op.op.operands@[0], 2),
        is_memref(m, op.op.operands@[1], 2),
        is_memref(m, op.op.operands@[2], 2),
        element_ty == m.element_type,
    ensures
        m.memory_after(memory, op.lowered(m.ctx, element_ty).steps) == m.multiplied(
            (m.values)(op.op.operands@[0])->Desc_0,
            (m.values)(op.op.operands@[1])->Desc_0,
            (m.values)(op.op.operands@[2])->Desc_0,
            memory,
        ),
{
    let accum = (m.values)(op.op.operands@[0])->Desc_0;
    let lhs = (m.values)(op.op.operands@[1])->Desc_0;
    let steps = op.lowered(m.ctx, element_ty).steps;
    let bounds = seq![accum.sizes[0], accum.sizes[1], lhs.sizes[1]];
    let r0 = m.run(memory, steps, 0).0;
    m.lemma_run_step(memory, steps, 1);
    assert(m.step(r0, memory, steps[0]) == (Runtime::Desc(accum), memory)) by {
        reveal(Machine::step);
    }
    let r1 = m.run(memory, steps, 1).0;
    m.lemma_run_step(memory, steps, 2);
    assert(m.step(r1, memory, steps[1]) == (Runtime::Desc(lhs), memory)) by {
        reveal(Machine::step);
    }
    let r2 = m.run(memory, steps, 2).0;
    m.lemma_run_step(memory, steps, 3);
    assert(m.step(r2, memory, steps[2]) == (Runtime::Int(0), memory)) by {
        reveal(Machine::step);
    }
    let r3 = m.run(memory, steps, 3).0;
    m.lemma_run_step(memory, steps, 4);
    assert(m.step(r3, memory, steps[3]) == (Runtime::Int(1), memory)) by {
        reveal(Machine::step);
    }
    let outer = m.run(memory, steps, 4).0;
    assert(outer[0] == Runtime::Desc(accum));
    assert(outer[1] == Runtime::Desc(lhs));
    assert(outer[2] == Runtime::Int(0));
    assert(outer[3] == Runtime::Int(1));
    assert(m.ints(
        outer,
        seq![
            Ref::Size { step: 0, dim: 0 },
            Ref::Size { step: 0, dim: 1 },
            Ref::Size { step: 1, dim: 1 },
        ],
    ) =~= bounds);
    m.lemma_run_step(memory, steps, 5);
    let body = conversions::mat_mul_body(
        m.ctx,
        element_ty,
        Ref::Value(op.op.operands@[0]),
        Ref::Value(op.op.operands@[1]),
        Ref::Value(op.op.operands@[2]),
    );
    assert(m.step(outer, memory, steps[4]).1 == m.rounds(
        outer,
        bounds,
        memory,
        body,
        row_major::product(bounds),
    )) by {
        reveal(Machine::step);
    }
    lemma_mat_mul_rounds(
        m,
        outer,
        memory,
        element_ty,
        op.op.operands@,
        row_major::product(bounds),
    );
}

proof fn lemma_mat_mul_rounds(
    m: Machine,
    outer: Seq<Runtime>,
    memory: Memory,
    element_ty: TypeHandle,
    operands: Seq<Value>,
    n: nat,
)
    requires
        operands.len() == 3,
        is_memref(m, operands[0], 2),
        is_memref(m, operands[1], 2),
        is_memref(m, operands[2], 2),
        n <= row_major::product(
            seq![
                (m.values)(operands[0])->Desc_0.sizes[0],
                (m.values)(operands[0])->Desc_0.sizes[1],
                (m.values)(operands[1])->Desc_0.sizes[1],
            ],
        ),
        element_ty == m.element_type,
    ensures
        ({
            let accum = (m.values)(operands[0])->Desc_0;
            let lhs = (m.values)(operands[1])->Desc_0;
            let rhs = (m.values)(operands[2])->Desc_0;
            m.rounds(
                outer,
                seq![accum.sizes[0], accum.sizes[1], lhs.sizes[1]],
                memory,
                conversions::mat_mul_body(
                    m.ctx,
                    element_ty,
                    Ref::Value(operands[0]),
                    Ref::Value(operands[1]),
                    Ref::Value(operands[2]),
                ),
                n,
            ) == semantics::product_rounds(m.element_wise(), accum, lhs, rhs, n, memory)
        }),
    decreases n,
{
    if n > 0 {
        let accum = (m.values)(operands[0])->Desc_0;
        let lhs = (m.values)(operands[1])->Desc_0;
        let rhs = (m.values)(operands[2])->Desc_0;
        let bounds = seq![accum.sizes[0], accum.sizes[1], lhs.sizes[1]];
        let body = conversions::mat_mul_body(
            m.ctx,
            element_ty,
            Ref::Value(operands[0]),
            Ref::Value(operands[1]),
            Ref::Value(operands[2]),
        );
        let last = (n - 1) as nat;
        lemma_mat_mul_rounds(m, outer, memory, element_ty, operands, last);
        let before = m.rounds(outer, bounds, memory, body, last);
        let index = row_major::delinearize(bounds, last);
        row_major::lemma_delinearize(bounds, last);
        let i = Ref::Induction(0);
        let j = Ref::Induction(1);
        let k = Ref::Induction(2);
        let cell = accum.address(semantics::at(index[0], index[1]));
        let acc = before[cell];
        let a = before[lhs.address(semantics::at(index[0], index[2]))];
        let b = before[rhs.address(semantics::at(index[2], index[1]))];
        let product = (m.element_wise())(ElementWiseKind::Mul, a, b);
        let sum = (m.element_wise())(ElementWiseKind::Add, acc, product);
        law_selected_arithmetic(ElementWiseKind::Mul, m, element_ty, a, b);
        law_selected_arithmetic(ElementWiseKind::Add, m, element_ty, acc, product);
        let r0 = m.body(outer, index, before, body, 0).0;
        assert(m.body_ints(outer, index, r0, seq![i, j]) =~= semantics::at(index[0], index[1]));
        m.lemma_body_step(outer, index, before, body, 1);
        assert(m.body_step(outer, index, r0, before, body[0]) == (
            Runtime::Element(acc),
            before,
        )) by {
            reveal(Machine::body_step);
        }
        let r1 = m.body(outer, index, before, body, 1).0;
        assert(m.body_ints(outer, index, r1, seq![i, k]) =~= semantics::at(index[0], index[2]));
        m.lemma_body_step(outer, index, before, body, 2);
        assert(m.body_step(outer, index, r1, before, body[1]) == (Runtime::Element(a), before)) by {
            reveal(Machine::body_step);
        }
        let r2 = m.body(outer, index, before, body, 2).0;
        assert(m.body_ints(outer, index, r2, seq![k, j]) =~= semantics::at(index[2], index[1]));
        m.lemma_body_step(outer, index, before, body, 3);
        assert(m.body_step(outer, index, r2, before, body[2]) == (Runtime::Element(b), before)) by {
            reveal(Machine::body_step);
        }
        let r3 = m.body(outer, index, before, body, 3).0;
        m.lemma_body_step(outer, index, before, body, 4);
        assert(m.body_step(outer, index, r3, before, body[3]) == (
            Runtime::Element(product),
            before,
        )) by {
            reveal(Machine::body_step);
        }
        let r4 = m.body(outer, index, before, body, 4).0;
        m.lemma_body_step(outer, index, before, body, 5);
        assert(m.body_step(outer, index, r4, before, body[4]) == (
            Runtime::Element(sum),
            before,
        )) by {
            reveal(Machine::body_step);
        }
        let r5 = m.body(outer, index, before, body, 5).0;
        assert(m.body_ints(outer, index, r5, seq![i, j]) =~= semantics::at(index[0], index[1]));
        m.lemma_body_step(outer, index, before, body, 6);
        assert(m.body_step(outer, index, r5, before, body[5]).1 == before.insert(cell, sum)) by {
            reveal(Machine::body_step);
        }
    }
}

// Views
/// The references are to integers, which do not change as steps are added.
#[verifier::opaque]
spec fn evaluates(
    m: Machine,
    memory: Memory,
    steps: Seq<StepView>,
    refs: Seq<Ref>,
    values: Seq<nat>,
) -> bool {
    &&& refs.len() == values.len()
    &&& forall|i: int|
        0 <= i < refs.len() ==> semantics::settled(#[trigger] refs[i], steps.len()) && m.get(
            m.results(memory, steps),
            refs[i],
        ) == Runtime::Int(values[i])
}

/// The first step gives a descriptor.
spec fn unpacked(m: Machine, memory: Memory, steps: Seq<StepView>, desc: Desc) -> bool {
    steps.len() > 0 && m.results(memory, steps)[0] == Runtime::Desc(desc)
}

proof fn lemma_begins_with_trans(a: Seq<StepView>, b: Seq<StepView>, c: Seq<StepView>)
    requires
        semantics::begins_with(c, b),
        semantics::begins_with(b, a),
    ensures
        semantics::begins_with(c, a),
{
    assert(c.take(a.len() as int) =~= b.take(a.len() as int));
}

proof fn lemma_evaluates_longer(
    m: Machine,
    memory: Memory,
    steps: Seq<StepView>,
    longer: Seq<StepView>,
    refs: Seq<Ref>,
    values: Seq<nat>,
)
    requires
        semantics::begins_with(longer, steps),
        evaluates(m, memory, steps, refs, values),
    ensures
        evaluates(m, memory, longer, refs, values),
{
    reveal(evaluates);
    assert forall|i: int| 0 <= i < refs.len() implies semantics::settled(
        #[trigger] refs[i],
        longer.len(),
    ) && m.get(m.results(memory, longer), refs[i]) == Runtime::Int(values[i]) by {
        m.lemma_settled(memory, steps, longer, refs[i]);
    }
}

proof fn lemma_evaluates_len(
    m: Machine,
    memory: Memory,
    steps: Seq<StepView>,
    refs: Seq<Ref>,
    values: Seq<nat>,
)
    requires
        evaluates(m, memory, steps, refs, values),
    ensures
        refs.len() == values.len(),
{
    reveal(evaluates);
}

proof fn lemma_unpacked_longer(
    m: Machine,
    memory: Memory,
    steps: Seq<StepView>,
    longer: Seq<StepView>,
    desc: Desc,
)
    requires
        semantics::begins_with(longer, steps),
        unpacked(m, memory, steps, desc),
    ensures
        unpacked(m, memory, longer, desc),
{
    m.lemma_settled(memory, steps, longer, Ref::Step(0));
}

/// The parameters that are values are integers.
pub open spec fn params_are_ints(m: Machine, params: Seq<SliceParam>) -> bool {
    forall|i: int|
        0 <= i < params.len() ==> (#[trigger] params[i] matches SliceParam::Dynamic(value) ==> (
        m.values)(value) is Int)
}

/// The integers that parameters are.
pub open spec fn param_values(m: Machine, params: Seq<SliceParam>) -> Seq<nat> {
    Seq::new(
        params.len(),
        |i: int|
            match params[i] {
                SliceParam::Static(val) => val as nat,
                SliceParam::Dynamic(value) => (m.values)(value)->Int_0,
            },
    )
}

proof fn lemma_materialized(
    m: Machine,
    memory: Memory,
    params: Seq<SliceParam>,
    steps: Seq<StepView>,
    n: nat,
)
    requires
        n <= params.len(),
        params_are_ints(m, params),
        steps.len() + n <= usize::MAX,
    ensures
        ({
            let (after, refs) = conversions::materialized(params, steps, n);
            &&& semantics::begins_with(after, steps)
            &&& after.len() <= steps.len() + n
            &&& evaluates(m, memory, after, refs, param_values(m, params).take(n as int))
            &&& m.memory_after(memory, after) == m.memory_after(memory, steps)
        }),
    decreases n,
{
    reveal(evaluates);
    if n == 0 {
        assert(steps.take(steps.len() as int) =~= steps);
    } else {
        let last = (n - 1) as nat;
        lemma_materialized(m, memory, params, steps, last);
        let (before, refs) = conversions::materialized(params, steps, last);
        let (after, all) = conversions::materialized(params, steps, n);
        let values = param_values(m, params);
        assert(values.take(n as int) =~= values.take(last as int).push(values[n - 1]));
        match params[n - 1] {
            SliceParam::Static(val) => {
                let step = StepOf::IndexConstant(val);
                m.lemma_run_push(memory, before, step);
                assert(m.step(m.results(memory, before), m.memory_after(memory, before), step) == (
                    Runtime::Int(val as nat),
                    m.memory_after(memory, before),
                )) by {
                    reveal(Machine::step);
                }
                lemma_begins_with_trans(steps, before, after);
                lemma_evaluates_longer(
                    m,
                    memory,
                    before,
                    after,
                    refs,
                    values.take(last as int),
                );
            },
            SliceParam::Dynamic(value) => {
                assert(params[n - 1] matches SliceParam::Dynamic(v) ==> (m.values)(v) is Int);
            },
        }
    }
}

proof fn lemma_cast_all(
    m: Machine,
    memory: Memory,
    ctx: Context,
    refs: Seq<Ref>,
    values: Seq<nat>,
    types: Seq<TypeHandle>,
    targets: Seq<TypeHandle>,
    steps: Seq<StepView>,
    n: nat,
)
    requires
        n <= refs.len(),
        evaluates(m, memory, steps, refs, values),
        steps.len() + n <= usize::MAX,
    ensures
        ({
            let (after, cast) = conversions::cast_all(ctx, refs, types, targets, steps, n);
            &&& semantics::begins_with(after, steps)
            &&& after.len() <= steps.len() + n
            &&& evaluates(m, memory, after, cast, values.take(n as int))
            &&& m.memory_after(memory, after) == m.memory_after(memory, steps)
        }),
    decreases n,
{
    reveal(evaluates);
    if n == 0 {
        assert(steps.take(steps.len() as int) =~= steps);
    } else {
        let last = (n - 1) as nat;
        lemma_cast_all(m, memory, ctx, refs, values, types, targets, steps, last);
        let (before, cast) = conversions::cast_all(ctx, refs, types, targets, steps, last);
        let (after, all) = conversions::cast_all(ctx, refs, types, targets, steps, n);
        assert(values.take(n as int) =~= values.take(last as int).push(values[n - 1]));
        let value = refs[n - 1];
        m.lemma_settled(memory, steps, before, value);
        let results = m.results(memory, before);
        let now = m.memory_after(memory, before);
        if after != before {
            let step = after.last();
            assert(after =~= before.push(step));
            m.lemma_run_push(memory, before, step);
            assert(m.step(results, now, step) == (Runtime::Int(values[n - 1]), now)) by {
                reveal(Machine::step);
            }
            lemma_begins_with_trans(steps, before, after);
            lemma_evaluates_longer(m, memory, before, after, cast, values.take(last as int));
        } else {
            assert(all == cast.push(value)) by {
                let step_a = StepOf::IndexToInteger { value, ty: targets[n - 1] };
                let step_b = StepOf::IntegerToIndex { value, ty: targets[n - 1] };
                assert(before.push(step_a).len() == before.len() + 1);
                assert(before.push(step_b).len() == before.len() + 1);
            }
        }
    }
}

/// Two steps multiply an offset by a stride, and add the product to a sum.
proof fn lemma_scaled_term(
    m: Machine,
    memory: Memory,
    before: Seq<StepView>,
    desc: Desc,
    dim: usize,
    offset: Ref,
    sum: Ref,
    value: nat,
    total: nat,
)
    requires
        unpacked(m, memory, before, desc),
        dim < desc.strides.len(),
        before.len() + 2 <= usize::MAX,
        semantics::settled(offset, before.len()),
        m.get(m.results(memory, before), offset) == Runtime::Int(value),
        semantics::settled(sum, before.len()),
        m.get(m.results(memory, before), sum) == Runtime::Int(total),
    ensures
        ({
            let scaled = before.push(StepOf::Mul(offset, Ref::Stride { step: 0, dim }));
            let added = scaled.push(StepOf::Add(sum, Ref::Step(before.len() as usize)));
            &&& semantics::begins_with(added, before)
            &&& m.get(m.results(memory, added), Ref::Step(scaled.len() as usize)) == Runtime::Int(
                total + value * desc.strides[dim as int],
            )
            &&& m.memory_after(memory, added) == m.memory_after(memory, before)
        }),
{
    let mul = StepOf::Mul(offset, Ref::Stride { step: 0, dim });
    let scaled = before.push(mul);
    let add = StepOf::Add(sum, Ref::Step(before.len() as usize));
    let now = m.memory_after(memory, before);
    let term = value * desc.strides[dim as int];
    m.lemma_run_push(memory, before, mul);
    assert(m.step(m.results(memory, before), now, mul) == (Runtime::Int(term), now)) by {
        reveal(Machine::step);
    }
    m.lemma_run_push(memory, scaled, add);
    m.lemma_settled(memory, before, scaled, sum);
    assert(m.step(m.results(memory, scaled), now, add) == (Runtime::Int(total + term), now)) by {
        reveal(Machine::step);
    }
    lemma_begins_with_trans(before, scaled, scaled.push(add));
}

proof fn lemma_offset_sum(
    m: Machine,
    memory: Memory,
    offsets: Seq<Ref>,
    values: Seq<nat>,
    steps: Seq<StepView>,
    desc: Desc,
    n: nat,
)
    requires
        n <= offsets.len(),
        n <= desc.strides.len(),
        evaluates(m, memory, steps, offsets, values),
        unpacked(m, memory, steps, desc),
        steps.len() + 2 * n <= usize::MAX,
    ensures
        ({
            let (after, sum) = conversions::offset_sum(offsets, steps, n);
            &&& semantics::begins_with(after, steps)
            &&& after.len() == steps.len() + 2 * n
            &&& semantics::settled(sum, after.len())
            &&& m.get(m.results(memory, after), sum) == Runtime::Int(
                desc.offset + row_major::dot_upto(values, desc.strides, n),
            )
            &&& m.memory_after(memory, after) == m.memory_after(memory, steps)
        }),
    decreases n,
{
    reveal(evaluates);
    if n == 0 {
        assert(steps.take(steps.len() as int) =~= steps);
    } else {
        let last = (n - 1) as nat;
        lemma_offset_sum(m, memory, offsets, values, steps, desc, last);
        let (before, sum) = conversions::offset_sum(offsets, steps, last);
        lemma_unpacked_longer(m, memory, steps, before, desc);
        lemma_evaluates_longer(m, memory, steps, before, offsets, values);
        assert(semantics::settled(offsets[n - 1], before.len()));
        lemma_scaled_term(
            m,
            memory,
            before,
            desc,
            (n - 1) as usize,
            offsets[n - 1],
            sum,
            values[n - 1],
            desc.offset + row_major::dot_upto(values, desc.strides, last),
        );
        lemma_begins_with_trans(
            steps,
            before,
            conversions::offset_sum(offsets, steps, n).0,
        );
    }
}

proof fn lemma_scaled_strides(
    m: Machine,
    memory: Memory,
    factors: Seq<Ref>,
    values: Seq<nat>,
    steps: Seq<StepView>,
    desc: Desc,
    n: nat,
)
    requires
        n <= factors.len(),
        n <= desc.strides.len(),
        evaluates(m, memory, steps, factors, values),
        unpacked(m, memory, steps, desc),
        steps.len() + n <= usize::MAX,
    ensures
        ({
            let (after, refs) = conversions::scaled_strides(factors, steps, n);
            &&& semantics::begins_with(after, steps)
            &&& after.len() == steps.len() + n
            &&& evaluates(
                m,
                memory,
                after,
                refs,
                Seq::new(n, |d: int| desc.strides[d] * values[d]),
            )
            &&& m.memory_after(memory, after) == m.memory_after(memory, steps)
        }),
    decreases n,
{
    reveal(evaluates);
    if n == 0 {
        assert(steps.take(steps.len() as int) =~= steps);
    } else {
        let last = (n - 1) as nat;
        lemma_scaled_strides(m, memory, factors, values, steps, desc, last);
        let (before, refs) = conversions::scaled_strides(factors, steps, last);
        let (after, all) = conversions::scaled_strides(factors, steps, n);
        let products = |k: nat| Seq::new(k, |d: int| desc.strides[d] * values[d]);
        let mul = StepOf::Mul(
            Ref::Stride { step: 0, dim: (n - 1) as usize },
            factors[n - 1],
        );
        lemma_unpacked_longer(m, memory, steps, before, desc);
        lemma_evaluates_longer(m, memory, steps, before, factors, values);
        m.lemma_run_push(memory, before, mul);
        let now = m.memory_after(memory, before);
        assert(semantics::settled(factors[n - 1], before.len()));
        assert(m.step(m.results(memory, before), now, mul) == (
            Runtime::Int(desc.strides[n - 1] * values[n - 1]),
            now,
        )) by {
            reveal(Machine::step);
        }
        lemma_begins_with_trans(steps, before, after);
        lemma_evaluates_longer(
            m,
            memory,
            before,
            after,
            refs,
            Seq::new(last, |d: int| desc.strides[d] * values[d]),
        );
        assert(Seq::new(n, |d: int| desc.strides[d] * values[d]) =~= Seq::new(
            last,
            |d: int| desc.strides[d] * values[d],
        ).push(desc.strides[n - 1] * values[n - 1]));
    }
}

/// What one kind of parameter evaluates to: constants first, then casts.
proof fn lemma_params(
    m: Machine,
    memory: Memory,
    ctx: Context,
    params: Seq<SliceParam>,
    types: Seq<TypeHandle>,
    targets: Seq<TypeHandle>,
    steps: Seq<StepView>,
    n: nat,
)
    requires
        n == params.len(),
        params_are_ints(m, params),
        steps.len() + 2 * n <= usize::MAX,
    ensures
        ({
            let (constants, refs) = conversions::materialized(params, steps, n);
            let (after, values) = conversions::cast_all(
                ctx,
                refs,
                types,
                targets,
                constants,
                n,
            );
            &&& semantics::begins_with(after, steps)
            &&& after.len() <= steps.len() + 2 * n
            &&& evaluates(m, memory, after, values, param_values(m, params))
            &&& m.memory_after(memory, after) == m.memory_after(memory, steps)
        }),
{
    let (constants, refs) = conversions::materialized(params, steps, n);
    let values = param_values(m, params);
    assert(values.take(n as int) =~= values);
    lemma_materialized(m, memory, params, steps, n);
    lemma_evaluates_len(m, memory, constants, refs, values);
    lemma_cast_all(m, memory, ctx, refs, values, types, targets, constants, n);
    let after = conversions::cast_all(ctx, refs, types, targets, constants, n).0;
    lemma_begins_with_trans(steps, constants, after);
}

/// What the last steps of a view give, from what its parameters evaluate to.
proof fn lemma_view(
    m: Machine,
    memory: Memory,
    steps: Seq<StepView>,
    desc: Desc,
    ty: TypeHandle,
    offset_refs: Seq<Ref>,
    offsets: Seq<nat>,
    size_refs: Seq<Ref>,
    sizes: Seq<nat>,
    step_refs: Seq<Ref>,
    factors: Seq<nat>,
    rank: nat,
)
    requires
        unpacked(m, memory, steps, desc),
        desc.strides.len() == rank,
        offsets.len() == rank,
        factors.len() == rank,
        evaluates(m, memory, steps, offset_refs, offsets),
        evaluates(m, memory, steps, size_refs, sizes),
        evaluates(m, memory, steps, step_refs, factors),
        steps.len() + 3 * rank <= usize::MAX,
    ensures
        ({
            let (s7, offset) = conversions::offset_sum(offset_refs, steps, rank);
            let (s8, strides) = conversions::scaled_strides(step_refs, s7, rank);
            let all = s8.push(
                StepOf::PackDescriptor {
                    ty,
                    allocated: Ref::Allocated(0),
                    aligned: Ref::Aligned(0),
                    offset,
                    extents: size_refs,
                    strides,
                },
            );
            &&& m.results(memory, all).last() == Runtime::Desc(
                desc.subview(offsets, sizes, factors),
            )
            &&& m.memory_after(memory, all) == m.memory_after(memory, steps)
        }),
{
    lemma_evaluates_len(m, memory, steps, offset_refs, offsets);
    lemma_evaluates_len(m, memory, steps, step_refs, factors);
    let (s7, offset) = conversions::offset_sum(offset_refs, steps, rank);
    lemma_offset_sum(m, memory, offset_refs, offsets, steps, desc, rank);
    lemma_unpacked_longer(m, memory, steps, s7, desc);
    lemma_evaluates_longer(m, memory, steps, s7, step_refs, factors);
    lemma_evaluates_longer(m, memory, steps, s7, size_refs, sizes);
    let (s8, strides) = conversions::scaled_strides(step_refs, s7, rank);
    lemma_scaled_strides(m, memory, step_refs, factors, s7, desc, rank);
    lemma_unpacked_longer(m, memory, s7, s8, desc);
    lemma_evaluates_longer(m, memory, s7, s8, size_refs, sizes);
    m.lemma_settled(memory, s7, s8, offset);
    let pack = StepOf::PackDescriptor {
        ty,
        allocated: Ref::Allocated(0),
        aligned: Ref::Aligned(0),
        offset,
        extents: size_refs,
        strides,
    };
    let results = m.results(memory, s8);
    let now = m.memory_after(memory, s8);
    let view = desc.subview(offsets, sizes, factors);
    assert(m.ints(results, size_refs) == sizes) by {
        reveal(evaluates);
        assert(m.ints(results, size_refs) =~= sizes);
    }
    assert(m.ints(results, strides) == view.strides) by {
        reveal(evaluates);
        assert(m.ints(results, strides) =~= view.strides);
    }
    m.lemma_run_push(memory, s8, pack);
    assert(m.step(results, now, pack) == (Runtime::Desc(view), now)) by {
        reveal(Machine::step);
    }
}

/// What a view with given parameters gives when it runs.
proof fn lemma_subview_lowered(
    m: Machine,
    memory: Memory,
    types: DescriptorTypes,
    source: Value,
    result_ty: TypeHandle,
    rank: nat,
    offsets: Seq<SliceParam>,
    sizes: Seq<SliceParam>,
    factors: Seq<SliceParam>,
)
    requires
        is_memref(m, source, rank),
        offsets.len() == rank,
        sizes.len() == rank,
        factors.len() == rank,
        params_are_ints(m, offsets),
        params_are_ints(m, sizes),
        params_are_ints(m, factors),
        2 + 9 * rank <= usize::MAX,
    ensures
        ({
            let steps = conversions::subview_lowered(
                m.ctx,
                types,
                source,
                result_ty,
                rank,
                offsets,
                sizes,
                factors,
            ).steps;
            &&& m.results(memory, steps).last() == Runtime::Desc(
                (m.values)(source)->Desc_0.subview(
                    param_values(m, offsets),
                    param_values(m, sizes),
                    param_values(m, factors),
                ),
            )
            &&& m.memory_after(memory, steps) == memory
        }),
{
    let ctx = m.ctx;
    let desc = (m.values)(source)->Desc_0;
    let first = StepOf::UnpackDescriptor(Ref::Value(source));
    let none = Seq::<StepView>::empty();
    let s0: Seq<StepView> = seq![first];
    assert(s0 =~= none.push(first));
    m.lemma_run_push(memory, none, first);
    assert(m.step(m.results(memory, none), memory, first) == (Runtime::Desc(desc), memory)) by {
        reveal(Machine::step);
    }
    assert(unpacked(m, memory, s0, desc));
    let offset_types = conversions::param_types(offsets, types.index);
    let offset_targets = conversions::repeated(types.offset, rank);
    let (s1, offset_refs) = conversions::materialized(offsets, s0, rank);
    let (s2, offset_values) = conversions::cast_all(
        ctx,
        offset_refs,
        offset_types,
        offset_targets,
        s1,
        rank,
    );
    lemma_params(m, memory, ctx, offsets, offset_types, offset_targets, s0, rank);
    let size_types = conversions::param_types(sizes, types.index);
    let size_targets = conversions::repeated(types.size(), rank);
    let (s3, size_refs) = conversions::materialized(sizes, s2, rank);
    let (s4, size_values) = conversions::cast_all(
        ctx,
        size_refs,
        size_types,
        size_targets,
        s3,
        rank,
    );
    lemma_params(m, memory, ctx, sizes, size_types, size_targets, s2, rank);
    let step_types = conversions::param_types(factors, types.index);
    let (s5, step_refs) = conversions::materialized(factors, s4, rank);
    let (s6, step_values) = conversions::cast_all(
        ctx,
        step_refs,
        step_types,
        types.strides@,
        s5,
        rank,
    );
    lemma_params(m, memory, ctx, factors, step_types, types.strides@, s4, rank);
    lemma_begins_with_trans(s2, s4, s6);
    lemma_begins_with_trans(s0, s2, s6);
    lemma_unpacked_longer(m, memory, s0, s6, desc);
    lemma_evaluates_longer(
        m,
        memory,
        s2,
        s6,
        offset_values,
        param_values(m, offsets),
    );
    lemma_evaluates_longer(m, memory, s4, s6, size_values, param_values(m, sizes));
    lemma_view(
        m,
        memory,
        s6,
        desc,
        result_ty,
        offset_values,
        param_values(m, offsets),
        size_values,
        param_values(m, sizes),
        step_values,
        param_values(m, factors),
        rank,
    );
}

/// Running a view gives the descriptor of the view: the same storage, with the offsets, each
/// times the stride of the source, added to the offset, the given sizes, and the strides
/// times the steps.
pub proof fn law_subview_runs(op: SubviewOp, m: Machine, memory: Memory, types: DescriptorTypes)
    requires
        op.wf(m.ctx),
        op.verdict(m.ctx) is Ok,
        op.has_params(),
        is_memref(
            m,
            op.op.operands@[0],
            m.ctx.as_memref(op.op.operands@[0].ty)->Some_0.shape.len(),
        ),
        params_are_ints(m, op.offsets()),
        params_are_ints(m, op.sizes()),
        params_are_ints(m, op.steps()),
        2 + 9 * op.offsets().len() <= usize::MAX,
    ensures
        ({
            let source = (m.values)(op.op.operands@[0])->Desc_0;
            let steps = op.lowered(m.ctx, types).steps;
            &&& m.results(memory, steps).last() == Runtime::Desc(
                source.subview(
                    param_values(m, op.offsets()),
                    param_values(m, op.sizes()),
                    param_values(m, op.steps()),
                ),
            )
            &&& m.memory_after(memory, steps) == memory
        }),
{
    let rank = m.ctx.as_memref(op.op.operands@[0].ty)->Some_0.shape.len();
    assert(op.offsets().len() == rank);
    assert(op.sizes().len() == rank);
    assert(op.steps().len() == rank);
    lemma_subview_lowered(
        m,
        memory,
        types,
        op.op.operands@[0],
        op.op.result_types@[0],
        rank,
        op.offsets(),
        op.sizes(),
        op.steps(),
    );
}

} // verus!
