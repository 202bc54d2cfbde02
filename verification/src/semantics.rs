//! What plans mean.
//!
//! Memory is a map from addresses to elements. Addresses and the offsets and strides of
//! descriptors count elements. Integers do not overflow. Loops go from zero by one: nothing is
//! known of the memory after another loop.

use crate::ir::{Context, IntegerType, TypeHandle, TypeView, Value};
use crate::memref::type_interfaces::Dimension;
use crate::plan;
use crate::plan::{
    ArithOp, BodyStepOf, BodyStepView, Callee, ElementWiseKind, Param, Ref, StepOf, StepView,
};
use crate::row_major;
use vstd::arithmetic::div_mod::*;
use vstd::arithmetic::mul::*;
use vstd::arithmetic::power2::*;
use vstd::prelude::*;

verus! {

/// A memref as a program holds it when it runs.
#[verifier::ext_equal]
pub struct Desc {
    pub allocated: int,
    pub aligned: int,
    pub offset: nat,
    pub sizes: Seq<nat>,
    pub strides: Seq<nat>,
}

/// Elements by address.
pub type Memory = Map<int, int>;

/// The strides of the row-major layout.
pub open spec fn row_major_strides(sizes: Seq<nat>) -> Seq<nat> {
    Seq::new(sizes.len(), |d: int| row_major::row_major_stride(sizes, d))
}

impl Desc {
    /// One stride per dimension.
    pub open spec fn wf(self) -> bool {
        self.sizes.len() == self.strides.len()
    }

    /// The address of the element at `idxs`.
    pub open spec fn address(self, idxs: Seq<nat>) -> int {
        self.aligned + self.offset + row_major::dot(idxs, self.strides)
    }

    /// The address of the element that comes `lin`-th in row-major order.
    pub open spec fn nth(self, lin: nat) -> int {
        self.address(row_major::delinearize(self.sizes, lin))
    }

    /// The number of elements.
    pub open spec fn count(self) -> nat {
        row_major::product(self.sizes)
    }

    /// The elements lie one after the other in row-major order.
    pub open spec fn contiguous(self) -> bool {
        self.strides == row_major_strides(self.sizes)
    }

    /// No two elements share an address.
    pub open spec fn injective(self) -> bool {
        forall|a: nat, b: nat|
            a < b < self.count() ==> #[trigger] self.nth(a) != #[trigger] self.nth(b)
    }

    /// No element has the given address.
    pub open spec fn avoids(self, address: int) -> bool {
        forall|lin: nat| lin < self.count() ==> #[trigger] self.nth(lin) != address
    }

    /// No element of one is an element of the other.
    pub open spec fn disjoint(self, other: Desc) -> bool {
        forall|lin: nat| lin < self.count() ==> other.avoids(#[trigger] self.nth(lin))
    }

    /// The view with an offset, a size and a step in each dimension.
    pub open spec fn subview(self, offsets: Seq<nat>, sizes: Seq<nat>, steps: Seq<nat>) -> Desc {
        Desc {
            allocated: self.allocated,
            aligned: self.aligned,
            offset: self.offset + row_major::dot(offsets, self.strides),
            sizes,
            strides: Seq::new(self.strides.len(), |d: int| self.strides[d] * steps[d]),
        }
    }

    /// The same storage with the row-major layout of other sizes.
    pub open spec fn reshaped(self, sizes: Seq<nat>) -> Desc {
        Desc {
            allocated: self.allocated,
            aligned: self.aligned,
            offset: self.offset,
            sizes,
            strides: row_major_strides(sizes),
        }
    }
}

/// Where the elements of a slice lie in the source.
pub open spec fn slice_indices(offsets: Seq<nat>, steps: Seq<nat>, idxs: Seq<nat>) -> Seq<nat> {
    Seq::new(idxs.len(), |d: int| offsets[d] + idxs[d] * steps[d])
}

/// The element of a view at some index is the element of the source at the offset plus the
/// index times the step.
pub proof fn law_subview_elements(
    source: Desc,
    offsets: Seq<nat>,
    sizes: Seq<nat>,
    steps: Seq<nat>,
    idxs: Seq<nat>,
)
    requires
        source.wf(),
        offsets.len() == source.sizes.len(),
        sizes.len() == source.sizes.len(),
        steps.len() == source.sizes.len(),
        idxs.len() == source.sizes.len(),
    ensures
        source.subview(offsets, sizes, steps).address(idxs) == source.address(
            slice_indices(offsets, steps, idxs),
        ),
{
    let view = source.subview(offsets, sizes, steps);
    let inner = slice_indices(offsets, steps, idxs);
    lemma_subview_dot(offsets, steps, idxs, source.strides, view.strides, idxs.len());
}

proof fn lemma_subview_dot(
    offsets: Seq<nat>,
    steps: Seq<nat>,
    idxs: Seq<nat>,
    strides: Seq<nat>,
    view_strides: Seq<nat>,
    n: nat,
)
    requires
        n <= idxs.len(),
        idxs.len() == strides.len(),
        offsets.len() == strides.len(),
        steps.len() == strides.len(),
        view_strides == Seq::new(strides.len(), |d: int| strides[d] * steps[d]),
    ensures
        row_major::dot_upto(offsets, strides, n) + row_major::dot_upto(idxs, view_strides, n)
            == row_major::dot_upto(slice_indices(offsets, steps, idxs), strides, n),
    decreases n,
{
    if n > 0 {
        lemma_subview_dot(offsets, steps, idxs, strides, view_strides, (n - 1) as nat);
        let o = offsets[n - 1] as int;
        let i = idxs[n - 1] as int;
        let t = steps[n - 1] as int;
        let s = strides[n - 1] as int;
        assert(o * s + i * (s * t) == (o + i * t) * s) by (nonlinear_arith);
    }
}

/// A contiguous memref and its reshaped form hold the same elements in the same row-major
/// order.
pub proof fn law_reshape_keeps_order(source: Desc, sizes: Seq<nat>, lin: nat)
    requires
        source.contiguous(),
        row_major::product(sizes) == source.count(),
        lin < source.count(),
    ensures
        source.reshaped(sizes).nth(lin) == source.nth(lin),
        source.reshaped(sizes).nth(lin) == source.aligned + source.offset + lin,
{
    lemma_contiguous_nth(source, lin);
    lemma_contiguous_nth(source.reshaped(sizes), lin);
}

/// The elements of a contiguous memref follow each other.
pub proof fn lemma_contiguous_nth(d: Desc, lin: nat)
    requires
        d.contiguous(),
        lin < d.count(),
    ensures
        d.nth(lin) == d.aligned + d.offset + lin,
{
    row_major::lemma_delinearize(d.sizes, lin);
    row_major::lemma_dot_row_major(d.sizes, row_major::delinearize(d.sizes, lin), d.strides);
}

/// The elements of a contiguous memref lie apart.
pub proof fn law_contiguous_is_injective(d: Desc)
    requires
        d.contiguous(),
    ensures
        d.injective(),
{
    assert forall|a: nat, b: nat| a < b < d.count() implies #[trigger] d.nth(a) != #[trigger] d.nth(
        b,
    ) by {
        lemma_contiguous_nth(d, a);
        lemma_contiguous_nth(d, b);
    }
}

/// Memory after one write for each of the first `n` positions, where position `lin` writes
/// to `target(lin)` what `value` computes from the memory before the write.
pub open spec fn filled(
    target: spec_fn(nat) -> int,
    value: spec_fn(nat, Memory) -> int,
    n: nat,
    memory: Memory,
) -> Memory
    decreases n,
{
    if n == 0 {
        memory
    } else {
        let before = filled(target, value, (n - 1) as nat, memory);
        before.insert(target((n - 1) as nat), value((n - 1) as nat, before))
    }
}

/// No two of the first `n` positions are written to the same place, and what is written to
/// one does not depend on what is written to another.
pub open spec fn independent(
    target: spec_fn(nat) -> int,
    value: spec_fn(nat, Memory) -> int,
    n: nat,
) -> bool {
    &&& forall|a: nat, b: nat| a < b < n ==> #[trigger] target(a) != #[trigger] target(b)
    &&& forall|a: nat, b: nat, memory: Memory, v: int|
        a < n && b < n && a != b ==> #[trigger] value(b, memory.insert(target(a), v)) == value(
            b,
            memory,
        )
}

/// After independent writes, each position holds what its value was before all of them, and
/// the rest of memory is as before.
pub proof fn lemma_filled(
    target: spec_fn(nat) -> int,
    value: spec_fn(nat, Memory) -> int,
    total: nat,
    n: nat,
    memory: Memory,
)
    requires
        n <= total,
        independent(target, value, total),
    ensures
        forall|a: nat|
            a < n ==> filled(target, value, n, memory)[#[trigger] target(a)] == value(a, memory),
        forall|b: nat|
            n <= b < total ==> #[trigger] value(b, filled(target, value, n, memory)) == value(
                b,
                memory,
            ),
        forall|address: int|
            (forall|a: nat| a < n ==> #[trigger] target(a) != address) ==> (#[trigger] filled(
                target,
                value,
                n,
                memory,
            )[address] == memory[address] && filled(target, value, n, memory).dom().contains(
                address,
            ) == memory.dom().contains(address)),
    decreases n,
{
    if n > 0 {
        let last = (n - 1) as nat;
        lemma_filled(target, value, total, last, memory);
        let before = filled(target, value, last, memory);
        let after = filled(target, value, n, memory);
        assert(value(last, before) == value(last, memory));
        assert forall|a: nat| a < n implies after[#[trigger] target(a)] == value(a, memory) by {
            if a < last {
                assert(target(a) != target(last));
            }
        }
        assert forall|b: nat| n <= b < total implies #[trigger] value(b, after) == value(
            b,
            memory,
        ) by {
            assert(value(b, before.insert(target(last), value(last, before))) == value(b, before));
            assert(value(b, before) == value(b, memory));
        }
        assert forall|address: int|
            (forall|a: nat| a < n ==> #[trigger] target(a) != address) implies (
            #[trigger] after[address] == memory[address] && after.dom().contains(address)
                == memory.dom().contains(address)) by {
            assert(target(last) != address);
            assert(before[address] == memory[address]);
        }
    }
}

/// Writes change nothing but the places that they write to.
pub proof fn lemma_filled_elsewhere(
    target: spec_fn(nat) -> int,
    value: spec_fn(nat, Memory) -> int,
    n: nat,
    memory: Memory,
    address: int,
)
    requires
        forall|a: nat| a < n ==> #[trigger] target(a) != address,
    ensures
        filled(target, value, n, memory)[address] == memory[address],
    decreases n,
{
    if n > 0 {
        let last = (n - 1) as nat;
        lemma_filled_elsewhere(target, value, last, memory, address);
        assert(target(last) != address);
    }
}

/// A value when the program runs.
#[verifier::ext_equal]
pub enum Runtime {
    Unit,
    Int(nat),
    Ptr(int),
    Element(int),
    Desc(Desc),
}

/// Arithmetic on floating-point numbers, given by their bits.
pub struct FloatArith {
    pub sum: spec_fn(int, int) -> int,
    pub difference: spec_fn(int, int) -> int,
    pub product: spec_fn(int, int) -> int,
    pub quotient: spec_fn(int, int) -> int,
}

/// The bits of a number in two's complement.
pub open spec fn bits_of(number: int, width: nat) -> int {
    number % (pow2(width) as int)
}

/// The number in two's complement that bits stand for.
pub open spec fn signed_number(bits: int, width: nat) -> int {
    if 2 * bits >= pow2(width) {
        bits - pow2(width)
    } else {
        bits
    }
}

/// The number that bits stand for. Without a sign of its own a type is taken to be signed.
pub open spec fn number_of(ty: IntegerType, bits: int) -> int {
    if ty.signedness is Unsigned {
        bits
    } else {
        signed_number(bits, ty.width as nat)
    }
}

/// The quotient of two numbers, rounded towards zero.
pub open spec fn quotient(a: int, b: int) -> int {
    if (a < 0) == (b < 0) {
        magnitude(a) / magnitude(b)
    } else {
        -(magnitude(a) / magnitude(b))
    }
}

pub open spec fn magnitude(a: int) -> int {
    if a < 0 {
        -a
    } else {
        a
    }
}

/// What a plan depends on besides memory.
pub struct Machine {
    /// The values of the program.
    pub values: spec_fn(Value) -> Runtime,
    /// Arithmetic on floating-point numbers, which are elements by their bits.
    pub float: FloatArith,
    /// The type of the elements.
    pub element_type: TypeHandle,
    /// The number of bytes of a value of each type.
    pub type_size: spec_fn(TypeHandle) -> nat,
    /// The address that an allocation of so many bytes, by the step with the given number,
    /// gives.
    pub malloc: spec_fn(nat, nat) -> int,
    /// What the region of the operation that is replaced yields for given indices.
    pub region: spec_fn(Seq<nat>) -> int,
    /// The types.
    pub ctx: Context,
}

/// The sizes of a shape, with the given sizes of its dynamic dimensions.
pub open spec fn filled_sizes(shape: Seq<Dimension>, dynamic: Seq<nat>) -> Seq<nat>
    decreases shape.len(),
{
    if shape.len() == 0 {
        Seq::empty()
    } else {
        match shape.last() {
            Dimension::Static(size) => filled_sizes(shape.drop_last(), dynamic).push(size as nat),
            Dimension::Dynamic => filled_sizes(shape.drop_last(), dynamic.drop_last()).push(
                dynamic.last(),
            ),
        }
    }
}

impl Machine {
    /// What an instruction computes from two elements. Those on integers work on their bits.
    pub open spec fn arith(self, op: ArithOp, a: int, b: int) -> int {
        let width = self.ctx.get(self.element_type)->Integer_0.width as nat;
        match op {
            ArithOp::Add => bits_of(a + b, width),
            ArithOp::Sub => bits_of(a - b, width),
            ArithOp::Mul => bits_of(a * b, width),
            ArithOp::SDiv => bits_of(
                quotient(signed_number(a, width), signed_number(b, width)),
                width,
            ),
            ArithOp::UDiv => bits_of(quotient(a, b), width),
            ArithOp::FAdd => (self.float.sum)(a, b),
            ArithOp::FSub => (self.float.difference)(a, b),
            ArithOp::FMul => (self.float.product)(a, b),
            ArithOp::FDiv => (self.float.quotient)(a, b),
        }
    }

    /// What an element-wise operation computes from two elements, by the numbers that they
    /// stand for. Elements of other types are added, subtracted and multiplied by their bits, and
    /// nothing is known of their quotients.
    pub open spec fn element_result(self, kind: ElementWiseKind, a: int, b: int) -> int {
        match self.ctx.get(self.element_type) {
            TypeView::FP16 | TypeView::FP32 | TypeView::FP64 => match kind {
                ElementWiseKind::Add => (self.float.sum)(a, b),
                ElementWiseKind::Sub => (self.float.difference)(a, b),
                ElementWiseKind::Mul => (self.float.product)(a, b),
                ElementWiseKind::Div => (self.float.quotient)(a, b),
            },
            TypeView::Integer(ty) => {
                let x = number_of(ty, a);
                let y = number_of(ty, b);
                bits_of(
                    match kind {
                        ElementWiseKind::Add => x + y,
                        ElementWiseKind::Sub => x - y,
                        ElementWiseKind::Mul => x * y,
                        ElementWiseKind::Div => quotient(x, y),
                    },
                    ty.width as nat,
                )
            },
            _ => match kind {
                ElementWiseKind::Add => self.arith(ArithOp::Add, a, b),
                ElementWiseKind::Sub => self.arith(ArithOp::Sub, a, b),
                ElementWiseKind::Mul => self.arith(ArithOp::Mul, a, b),
                ElementWiseKind::Div => arbitrary(),
            },
        }
    }

    /// What each kind of element-wise operation computes from two elements.
    pub open spec fn element_wise(self) -> spec_fn(ElementWiseKind, int, int) -> int {
        |kind: ElementWiseKind, a: int, b: int| self.element_result(kind, a, b)
    }

    pub open spec fn shape_of(self, ty: TypeHandle) -> Seq<Dimension> {
        self.ctx.as_memref(ty)->Some_0.shape
    }

    /// What a reference of a step of a plan is, given the results of the steps before it.
    pub open spec fn get(self, results: Seq<Runtime>, r: Ref) -> Runtime {
        match r {
            Ref::Value(value) => (self.values)(value),
            Ref::Step(n) => results[n as int],
            Ref::Outer(n) => results[n as int],
            Ref::Induction(_) => Runtime::Unit,
            Ref::Size { step, dim } => Runtime::Int(
                results[step as int]->Desc_0.sizes[dim as int],
            ),
            Ref::Stride { step, dim } => Runtime::Int(
                results[step as int]->Desc_0.strides[dim as int],
            ),
            Ref::Count(step) => Runtime::Int(results[step as int]->Desc_0.count()),
            Ref::Allocated(step) => Runtime::Ptr(results[step as int]->Desc_0.allocated),
            Ref::Aligned(step) => Runtime::Ptr(results[step as int]->Desc_0.aligned),
            Ref::Offset(step) => Runtime::Int(results[step as int]->Desc_0.offset),
        }
    }

    pub open spec fn int_of(self, results: Seq<Runtime>, r: Ref) -> nat {
        self.get(results, r)->Int_0
    }

    pub open spec fn desc(self, results: Seq<Runtime>, r: Ref) -> Desc {
        self.get(results, r)->Desc_0
    }

    pub open spec fn ints(self, results: Seq<Runtime>, refs: Seq<Ref>) -> Seq<nat> {
        Seq::new(refs.len(), |i: int| self.int_of(results, refs[i]))
    }

    pub open spec fn params(self, results: Seq<Runtime>, params: Seq<Param>) -> Seq<nat> {
        Seq::new(
            params.len(),
            |i: int|
                match params[i] {
                    Param::Static(n) => n as nat,
                    Param::Dynamic(r) => self.int_of(results, r),
                },
        )
    }

    /// What a reference of a step of a body is, given the results of the plan, the index of
    /// the loop, and the results of the steps of the body before it.
    pub open spec fn body_get(
        self,
        outer: Seq<Runtime>,
        index: Seq<nat>,
        results: Seq<Runtime>,
        r: Ref,
    ) -> Runtime {
        match r {
            Ref::Step(n) => results[n as int],
            Ref::Induction(dim) => Runtime::Int(index[dim as int]),
            _ => self.get(outer, r),
        }
    }

    pub open spec fn body_ints(
        self,
        outer: Seq<Runtime>,
        index: Seq<nat>,
        results: Seq<Runtime>,
        refs: Seq<Ref>,
    ) -> Seq<nat> {
        Seq::new(refs.len(), |i: int| self.body_get(outer, index, results, refs[i])->Int_0)
    }

    pub open spec fn body_params(
        self,
        outer: Seq<Runtime>,
        index: Seq<nat>,
        results: Seq<Runtime>,
        params: Seq<Param>,
    ) -> Seq<nat> {
        Seq::new(
            params.len(),
            |i: int|
                match params[i] {
                    Param::Static(n) => n as nat,
                    Param::Dynamic(r) => self.body_get(outer, index, results, r)->Int_0,
                },
        )
    }

    /// What a step of a body gives, and the memory after it.
    #[verifier::opaque]
    pub open spec fn body_step(
        self,
        outer: Seq<Runtime>,
        index: Seq<nat>,
        results: Seq<Runtime>,
        memory: Memory,
        step: BodyStepView,
    ) -> (Runtime, Memory) {
        match step {
            BodyStepOf::LoadElement { ty, memref, indices } => {
                let desc = self.body_get(outer, index, results, memref)->Desc_0;
                let at = self.body_ints(outer, index, results, indices);
                (Runtime::Element(memory[desc.address(at)]), memory)
            },
            BodyStepOf::StoreElement { value, memref, indices } => {
                let desc = self.body_get(outer, index, results, memref)->Desc_0;
                let at = self.body_ints(outer, index, results, indices);
                let element = self.body_get(outer, index, results, value)->Element_0;
                (Runtime::Unit, memory.insert(desc.address(at), element))
            },
            BodyStepOf::Arith { op, lhs, rhs } => {
                let a = self.body_get(outer, index, results, lhs)->Element_0;
                let b = self.body_get(outer, index, results, rhs)->Element_0;
                (Runtime::Element(self.arith(op, a, b)), memory)
            },
            BodyStepOf::Region => (Runtime::Element((self.region)(index)), memory),
            BodyStepOf::Subview { source, offsets, sizes, steps } => {
                let desc = self.body_get(outer, index, results, source)->Desc_0;
                (
                    Runtime::Desc(
                        desc.subview(
                            self.body_params(outer, index, results, offsets),
                            self.body_params(outer, index, results, sizes),
                            self.body_params(outer, index, results, steps),
                        ),
                    ),
                    memory,
                )
            },
            BodyStepOf::Reshape { source, dynamic, ty } => {
                let desc = self.body_get(outer, index, results, source)->Desc_0;
                let sizes = filled_sizes(
                    self.shape_of(ty),
                    self.body_ints(outer, index, results, dynamic),
                );
                (Runtime::Desc(desc.reshaped(sizes)), memory)
            },
            BodyStepOf::MatMul { accum, lhs, rhs } => {
                let accum = self.body_get(outer, index, results, accum)->Desc_0;
                let lhs = self.body_get(outer, index, results, lhs)->Desc_0;
                let rhs = self.body_get(outer, index, results, rhs)->Desc_0;
                (Runtime::Desc(accum), self.multiplied(accum, lhs, rhs, memory))
            },
        }
    }

    /// The results of the first `n` steps of a body, and the memory after them.
    pub open spec fn body(
        self,
        outer: Seq<Runtime>,
        index: Seq<nat>,
        memory: Memory,
        body: Seq<BodyStepView>,
        n: nat,
    ) -> (Seq<Runtime>, Memory)
        decreases n,
    {
        if n == 0 {
            (Seq::empty(), memory)
        } else {
            let (results, before) = self.body(outer, index, memory, body, (n - 1) as nat);
            let (result, after) = self.body_step(outer, index, results, before, body[n - 1]);
            (results.push(result), after)
        }
    }

    /// The memory after the first `n` rounds of a loop.
    pub open spec fn rounds(
        self,
        outer: Seq<Runtime>,
        bounds: Seq<nat>,
        memory: Memory,
        body: Seq<BodyStepView>,
        n: nat,
    ) -> Memory
        decreases n,
    {
        if n == 0 {
            memory
        } else {
            let before = self.rounds(outer, bounds, memory, body, (n - 1) as nat);
            let index = row_major::delinearize(bounds, (n - 1) as nat);
            self.body(outer, index, before, body, body.len()).1
        }
    }

    /// The memory after the product of two matrices is added to a third one. For each row,
    /// column and inner index, in this order, the product of two elements is added to the
    /// element at the row and the column.
    pub open spec fn multiplied(self, accum: Desc, lhs: Desc, rhs: Desc, memory: Memory) -> Memory {
        product_rounds(
            self.element_wise(),
            accum,
            lhs,
            rhs,
            row_major::product(seq![accum.sizes[0], accum.sizes[1], lhs.sizes[1]]),
            memory,
        )
    }

    /// What a step gives, and the memory after it.
    #[verifier::opaque]
    pub open spec fn step(self, results: Seq<Runtime>, memory: Memory, step: StepView) -> (
        Runtime,
        Memory,
    ) {
        match step {
            StepOf::IndexConstant(n) => (Runtime::Int(n as nat), memory),
            StepOf::IntegerConstant(n) => (Runtime::Int(n as nat), memory),
            StepOf::IntToPtr(value) => (Runtime::Ptr(self.int_of(results, value) as int), memory),
            StepOf::IndexToInteger { value, ty } => (
                Runtime::Int(self.int_of(results, value)),
                memory,
            ),
            StepOf::IntegerToIndex { value, ty } => (
                Runtime::Int(self.int_of(results, value)),
                memory,
            ),
            StepOf::Add(a, b) => (
                Runtime::Int(self.int_of(results, a) + self.int_of(results, b)),
                memory,
            ),
            StepOf::Mul(a, b) => (
                Runtime::Int(self.int_of(results, a) * self.int_of(results, b)),
                memory,
            ),
            StepOf::TypeSize(ty) => (Runtime::Int((self.type_size)(ty)), memory),
            StepOf::UnpackDescriptor(memref) => (
                Runtime::Desc(self.desc(results, memref)),
                memory,
            ),
            StepOf::UnpackSizes(memref) => (Runtime::Desc(self.desc(results, memref)), memory),
            StepOf::UnpackSize { memref, dim } => (
                Runtime::Int(self.desc(results, memref).sizes[dim as int]),
                memory,
            ),
            StepOf::UnpackSizeAt { memref, at } => (
                Runtime::Int(
                    self.desc(results, memref).sizes[self.int_of(results, at) as int],
                ),
                memory,
            ),
            StepOf::UnpackAllocated(memref) => (
                Runtime::Ptr(self.desc(results, memref).allocated),
                memory,
            ),
            StepOf::UnpackAligned(memref) => (
                Runtime::Ptr(self.desc(results, memref).aligned),
                memory,
            ),
            StepOf::UnpackOffset(memref) => (
                Runtime::Int(self.desc(results, memref).offset),
                memory,
            ),
            StepOf::Layout { ty, dynamic } => {
                let sizes = filled_sizes(self.shape_of(ty), self.ints(results, dynamic));
                (
                    Runtime::Desc(
                        Desc {
                            allocated: 0,
                            aligned: 0,
                            offset: 0,
                            sizes,
                            strides: row_major_strides(sizes),
                        },
                    ),
                    memory,
                )
            },
            StepOf::PackDescriptor { ty, allocated, aligned, offset, extents, strides } => (
                Runtime::Desc(
                    Desc {
                        allocated: self.get(results, allocated)->Ptr_0,
                        aligned: self.get(results, aligned)->Ptr_0,
                        offset: self.int_of(results, offset),
                        sizes: self.ints(results, extents),
                        strides: self.ints(results, strides),
                    },
                ),
                memory,
            ),
            StepOf::ElementPtr { element_ty, memref, indices } => (
                Runtime::Ptr(
                    self.desc(results, memref).address(self.ints(results, indices)),
                ),
                memory,
            ),
            StepOf::Load { ptr, ty } => (
                Runtime::Element(memory[self.get(results, ptr)->Ptr_0]),
                memory,
            ),
            StepOf::Store { value, ptr } => (
                Runtime::Unit,
                memory.insert(
                    self.get(results, ptr)->Ptr_0,
                    self.get(results, value)->Element_0,
                ),
            ),
            StepOf::Call { callee, arguments } => match callee {
                Callee::Malloc => (
                    Runtime::Ptr((self.malloc)(results.len(), self.int_of(results, arguments[0]))),
                    memory,
                ),
                Callee::TrackedMalloc => (
                    Runtime::Ptr((self.malloc)(results.len(), self.int_of(results, arguments[1]))),
                    memory,
                ),
                Callee::Free => (Runtime::Unit, memory),
                Callee::TrackedDealloc => (Runtime::Unit, memory),
            },
            StepOf::Loop { lower, upper, step, body } => {
                let bounds = self.ints(results, upper);
                (
                    Runtime::Unit,
                    if self.int_of(results, lower) == 0 && self.int_of(results, step) == 1 {
                        self.rounds(results, bounds, memory, body, row_major::product(bounds))
                    } else {
                        arbitrary()
                    },
                )
            },
            StepOf::Alloc { ty, dynamic } => {
                let sizes = filled_sizes(self.shape_of(ty), self.ints(results, dynamic));
                let bytes = (self.type_size)(self.ctx.as_memref(ty)->Some_0.element_type)
                    * row_major::product(sizes);
                (
                    Runtime::Desc(
                        Desc {
                            allocated: (self.malloc)(results.len(), bytes),
                            aligned: (self.malloc)(results.len(), bytes),
                            offset: 0,
                            sizes,
                            strides: row_major_strides(sizes),
                        },
                    ),
                    memory,
                )
            },
            StepOf::Dim { memref, at } => (
                Runtime::Int(
                    self.desc(results, memref).sizes[self.int_of(results, at) as int],
                ),
                memory,
            ),
            StepOf::Copy { destination, source } => (
                Runtime::Unit,
                copied(self.desc(results, destination), self.desc(results, source), memory),
            ),
            StepOf::Subview { source, offsets, sizes, steps } => (
                Runtime::Desc(
                    self.desc(results, source).subview(
                        self.params(results, offsets),
                        self.params(results, sizes),
                        self.params(results, steps),
                    ),
                ),
                memory,
            ),
            StepOf::Reshape { source, dynamic, ty } => (
                Runtime::Desc(
                    self.desc(results, source).reshaped(
                        filled_sizes(self.shape_of(ty), self.ints(results, dynamic)),
                    ),
                ),
                memory,
            ),
            StepOf::MatMul { accum, lhs, rhs } => (
                Runtime::Desc(self.desc(results, accum)),
                self.multiplied(
                    self.desc(results, accum),
                    self.desc(results, lhs),
                    self.desc(results, rhs),
                    memory,
                ),
            ),
            StepOf::ElementWise { kind, res, lhs, rhs } => (
                Runtime::Unit,
                combined(
                    self.element_wise(),
                    kind,
                    self.desc(results, res),
                    self.desc(results, lhs),
                    self.desc(results, rhs),
                    memory,
                ),
            ),
            StepOf::Generate { memref } => (
                Runtime::Unit,
                generated(self.region, self.desc(results, memref), memory),
            ),
            StepOf::LoadElement { ty, memref, indices } => (
                Runtime::Element(
                    memory[self.desc(results, memref).address(self.ints(results, indices))],
                ),
                memory,
            ),
        }
    }

    /// The results of the first `n` steps of a plan, and the memory after them.
    pub open spec fn run(self, memory: Memory, steps: Seq<StepView>, n: nat) -> (
        Seq<Runtime>,
        Memory,
    )
        decreases n,
    {
        if n == 0 {
            (Seq::empty(), memory)
        } else {
            let (results, before) = self.run(memory, steps, (n - 1) as nat);
            let (result, after) = self.step(results, before, steps[n - 1]);
            (results.push(result), after)
        }
    }
}

/// Memory after all elements of a memref are copied to another one, one after the other.
pub open spec fn copied(destination: Desc, source: Desc, memory: Memory) -> Memory {
    filled(
        |lin: nat| destination.nth(lin),
        |lin: nat, m: Memory|
            m[source.address(row_major::delinearize(destination.sizes, lin))],
        destination.count(),
        memory,
    )
}

/// Memory after all elements of two memrefs are combined into a third one, one after the
/// other.
pub open spec fn combined(
    element_wise: spec_fn(ElementWiseKind, int, int) -> int,
    kind: ElementWiseKind,
    res: Desc,
    lhs: Desc,
    rhs: Desc,
    memory: Memory,
) -> Memory {
    filled(
        |lin: nat| res.nth(lin),
        |lin: nat, m: Memory|
            element_wise(
                kind,
                m[lhs.address(row_major::delinearize(res.sizes, lin))],
                m[rhs.address(row_major::delinearize(res.sizes, lin))],
            ),
        res.count(),
        memory,
    )
}

/// Memory after a memref is filled with what a function gives for each index.
pub open spec fn generated(f: spec_fn(Seq<nat>) -> int, memref: Desc, memory: Memory) -> Memory {
    filled(
        |lin: nat| memref.nth(lin),
        |lin: nat, m: Memory| f(row_major::delinearize(memref.sizes, lin)),
        memref.count(),
        memory,
    )
}

/// The index of an element of a matrix.
pub open spec fn at(row: nat, column: nat) -> Seq<nat> {
    seq![row, column]
}

/// Memory after the first `n` rounds of adding the product of two matrices to a third one.
pub open spec fn product_rounds(
    element_wise: spec_fn(ElementWiseKind, int, int) -> int,
    accum: Desc,
    lhs: Desc,
    rhs: Desc,
    n: nat,
    memory: Memory,
) -> Memory
    decreases n,
{
    if n == 0 {
        memory
    } else {
        let before = product_rounds(element_wise, accum, lhs, rhs, (n - 1) as nat, memory);
        let index = row_major::delinearize(
            seq![accum.sizes[0], accum.sizes[1], lhs.sizes[1]],
            (n - 1) as nat,
        );
        let cell = accum.address(at(index[0], index[1]));
        let a = before[lhs.address(at(index[0], index[2]))];
        let b = before[rhs.address(at(index[2], index[1]))];
        before.insert(
            cell,
            element_wise(
                ElementWiseKind::Add,
                before[cell],
                element_wise(ElementWiseKind::Mul, a, b),
            ),
        )
    }
}

/// `start` plus the first `n` products of `row` and `column`, added one after the other.
pub open spec fn sum_of_products(
    element_wise: spec_fn(ElementWiseKind, int, int) -> int,
    start: int,
    row: spec_fn(nat) -> int,
    column: spec_fn(nat) -> int,
    n: nat,
) -> int
    decreases n,
{
    if n == 0 {
        start
    } else {
        let k = (n - 1) as nat;
        element_wise(
            ElementWiseKind::Add,
            sum_of_products(element_wise, start, row, column, k),
            element_wise(ElementWiseKind::Mul, row(k), column(k)),
        )
    }
}

/// The element at a multi-index is one of the elements in row-major order.
pub proof fn lemma_address_is_nth(d: Desc, idxs: Seq<nat>)
    requires
        row_major::in_bounds(d.sizes, idxs),
    ensures
        row_major::linearize(d.sizes, idxs) < d.count(),
        d.nth(row_major::linearize(d.sizes, idxs)) == d.address(idxs),
{
    row_major::lemma_linearize(d.sizes, idxs);
}

/// No element of `d` other than the one at the same position is an element of `other`.
pub open spec fn keeps_apart(d: Desc, other: Desc) -> bool {
    forall|a: nat, b: nat|
        a < d.count() && b < d.count() && a != b ==> #[trigger] d.nth(a) != #[trigger] other.nth(b)
}

/// After a memref is copied to another one, the elements are the same, and the rest of
/// memory is as before. The elements of the destination lie apart from each other, and from
/// all elements of the source at other positions.
pub proof fn law_copy(destination: Desc, source: Desc, memory: Memory)
    requires
        destination.injective(),
        source.sizes == destination.sizes,
        keeps_apart(destination, source),
    ensures
        forall|lin: nat|
            lin < destination.count() ==> copied(
                destination,
                source,
                memory,
            )[#[trigger] destination.nth(lin)] == memory[source.nth(lin)],
        forall|address: int|
            destination.avoids(address) ==> #[trigger] copied(destination, source, memory)[address]
                == memory[address],
{
    let target = |lin: nat| destination.nth(lin);
    let value = |lin: nat, m: Memory|
        m[source.address(row_major::delinearize(destination.sizes, lin))];
    let n = destination.count();
    assert(independent(target, value, n)) by {
        assert forall|a: nat, b: nat| a < b < n implies #[trigger] target(a) != #[trigger] target(
            b,
        ) by {
            assert(destination.nth(a) != destination.nth(b));
        }
        assert forall|a: nat, b: nat, m: Memory, v: int|
            a < n && b < n && a != b implies #[trigger] value(b, m.insert(target(a), v)) == value(
            b,
            m,
        ) by {
            assert(destination.nth(a) != source.nth(b));
        }
    }
    lemma_filled(target, value, n, n, memory);
    assert forall|lin: nat| lin < n implies copied(
        destination,
        source,
        memory,
    )[#[trigger] destination.nth(lin)] == memory[source.nth(lin)] by {
        assert(filled(target, value, n, memory)[target(lin)] == value(lin, memory));
    }
    assert forall|address: int| destination.avoids(address) implies #[trigger] copied(
        destination,
        source,
        memory,
    )[address] == memory[address] by {
        assert forall|a: nat| a < n implies #[trigger] target(a) != address by {
            assert(destination.nth(a) != address);
        }
        assert(filled(target, value, n, memory)[address] == memory[address]);
    }
}

/// After two memrefs are combined into a third one element by element, each element is what
/// the operation computes from the elements at the same index, and the rest of memory is as
/// before. The result may be one of the operands.
pub proof fn law_element_wise(
    element_wise: spec_fn(ElementWiseKind, int, int) -> int,
    kind: ElementWiseKind,
    res: Desc,
    lhs: Desc,
    rhs: Desc,
    memory: Memory,
)
    requires
        res.injective(),
        lhs.sizes == res.sizes,
        rhs.sizes == res.sizes,
        keeps_apart(res, lhs),
        keeps_apart(res, rhs),
    ensures
        forall|lin: nat|
            lin < res.count() ==> combined(
                element_wise,
                kind,
                res,
                lhs,
                rhs,
                memory,
            )[#[trigger] res.nth(lin)] == element_wise(
                kind,
                memory[lhs.nth(lin)],
                memory[rhs.nth(lin)],
            ),
        forall|address: int|
            res.avoids(address) ==> #[trigger] combined(
                element_wise,
                kind,
                res,
                lhs,
                rhs,
                memory,
            )[address] == memory[address],
{
    let target = |lin: nat| res.nth(lin);
    let value = |lin: nat, m: Memory|
        element_wise(
            kind,
            m[lhs.address(row_major::delinearize(res.sizes, lin))],
            m[rhs.address(row_major::delinearize(res.sizes, lin))],
        );
    let n = res.count();
    assert(independent(target, value, n)) by {
        assert forall|a: nat, b: nat| a < b < n implies #[trigger] target(a) != #[trigger] target(
            b,
        ) by {
            assert(res.nth(a) != res.nth(b));
        }
        assert forall|a: nat, b: nat, m: Memory, v: int|
            a < n && b < n && a != b implies #[trigger] value(b, m.insert(target(a), v)) == value(
            b,
            m,
        ) by {
            assert(res.nth(a) != lhs.nth(b));
            assert(res.nth(a) != rhs.nth(b));
        }
    }
    lemma_filled(target, value, n, n, memory);
    assert forall|lin: nat| lin < n implies combined(
        element_wise,
        kind,
        res,
        lhs,
        rhs,
        memory,
    )[#[trigger] res.nth(lin)] == element_wise(
        kind,
        memory[lhs.nth(lin)],
        memory[rhs.nth(lin)],
    ) by {
        assert(filled(target, value, n, memory)[target(lin)] == value(lin, memory));
    }
    assert forall|address: int| res.avoids(address) implies #[trigger] combined(
        element_wise,
        kind,
        res,
        lhs,
        rhs,
        memory,
    )[address] == memory[address] by {
        assert forall|a: nat| a < n implies #[trigger] target(a) != address by {
            assert(res.nth(a) != address);
        }
        assert(filled(target, value, n, memory)[address] == memory[address]);
    }
}

/// After a memref is filled, each element is what the function gives for its index, and the
/// rest of memory is as before.
pub proof fn law_generate(f: spec_fn(Seq<nat>) -> int, memref: Desc, memory: Memory)
    requires
        memref.injective(),
    ensures
        forall|lin: nat|
            lin < memref.count() ==> generated(f, memref, memory)[#[trigger] memref.nth(lin)] == f(
                row_major::delinearize(memref.sizes, lin),
            ),
        forall|address: int|
            memref.avoids(address) ==> #[trigger] generated(f, memref, memory)[address]
                == memory[address],
{
    let target = |lin: nat| memref.nth(lin);
    let value = |lin: nat, m: Memory| f(row_major::delinearize(memref.sizes, lin));
    let n = memref.count();
    assert(independent(target, value, n)) by {
        assert forall|a: nat, b: nat| a < b < n implies #[trigger] target(a) != #[trigger] target(
            b,
        ) by {
            assert(memref.nth(a) != memref.nth(b));
        }
    }
    lemma_filled(target, value, n, n, memory);
    assert forall|lin: nat| lin < n implies generated(f, memref, memory)[#[trigger] memref.nth(lin)]
        == f(row_major::delinearize(memref.sizes, lin)) by {
        assert(filled(target, value, n, memory)[target(lin)] == value(lin, memory));
    }
    assert forall|address: int| memref.avoids(address) implies #[trigger] generated(
        f,
        memref,
        memory,
    )[address] == memory[address] by {
        assert forall|a: nat| a < n implies #[trigger] target(a) != address by {
            assert(memref.nth(a) != address);
        }
        assert(filled(target, value, n, memory)[address] == memory[address]);
    }
}

/// The operands of a matrix product fit together, and no element of the accumulator is an
/// element of a factor.
pub open spec fn multipliable(accum: Desc, lhs: Desc, rhs: Desc) -> bool {
    &&& accum.sizes.len() == 2
    &&& lhs.sizes == seq![accum.sizes[0], lhs.sizes[1]]
    &&& rhs.sizes == seq![lhs.sizes[1], accum.sizes[1]]
    &&& accum.injective()
    &&& lhs.disjoint(accum)
    &&& rhs.disjoint(accum)
}

/// The element of the product at a row and a column: that of the accumulator, plus the
/// products of the elements of the row of one factor and the column of the other.
pub open spec fn product_element(
    element_wise: spec_fn(ElementWiseKind, int, int) -> int,
    accum: Desc,
    lhs: Desc,
    rhs: Desc,
    memory: Memory,
    row: nat,
    column: nat,
    n: nat,
) -> int {
    sum_of_products(
        element_wise,
        memory[accum.address(at(row, column))],
        |k: nat| memory[lhs.address(at(row, k))],
        |k: nat| memory[rhs.address(at(k, column))],
        n,
    )
}

/// How many products have been added to cell `q` after `n` rounds.
spec fn products_added(n: nat, q: nat, inner: nat) -> nat {
    if n <= q * inner {
        0
    } else if n >= (q + 1) * inner {
        inner
    } else {
        (n - q * inner) as nat
    }
}

proof fn lemma_two_dim(sizes: Seq<nat>, q: nat)
    requires
        sizes.len() == 2,
        q < row_major::product(sizes),
    ensures
        row_major::delinearize(sizes, q).len() == 2,
        row_major::delinearize(sizes, q)[0] < sizes[0],
        row_major::delinearize(sizes, q)[1] < sizes[1],
        row_major::delinearize(sizes, q) == seq![
            row_major::delinearize(sizes, q)[0],
            row_major::delinearize(sizes, q)[1],
        ],
{
    row_major::lemma_delinearize(sizes, q);
    let idxs = row_major::delinearize(sizes, q);
    assert(idxs[0] < sizes[0]);
    assert(idxs[1] < sizes[1]);
    assert(idxs =~= seq![idxs[0], idxs[1]]);
}

#[verifier::rlimit(40)]
proof fn lemma_product_rounds(
    element_wise: spec_fn(ElementWiseKind, int, int) -> int,
    accum: Desc,
    lhs: Desc,
    rhs: Desc,
    n: nat,
    memory: Memory,
)
    requires
        multipliable(accum, lhs, rhs),
        n <= row_major::product(seq![accum.sizes[0], accum.sizes[1], lhs.sizes[1]]),
    ensures
        forall|q: nat|
            q < accum.count() ==> product_rounds(
                element_wise,
                accum,
                lhs,
                rhs,
                n,
                memory,
            )[#[trigger] accum.nth(q)] == product_element(
                element_wise,
                accum,
                lhs,
                rhs,
                memory,
                row_major::delinearize(accum.sizes, q)[0],
                row_major::delinearize(accum.sizes, q)[1],
                products_added(n, q, lhs.sizes[1]),
            ),
        forall|address: int|
            accum.avoids(address) ==> #[trigger] product_rounds(
                element_wise,
                accum,
                lhs,
                rhs,
                n,
                memory,
            )[address] == memory[address],
    decreases n,
{
    let inner = lhs.sizes[1];
    let bounds = seq![accum.sizes[0], accum.sizes[1], inner];
    let cells = accum.count();
    assert(bounds.drop_last() =~= accum.sizes);
    assert(row_major::product(bounds) == cells * inner);
    if n == 0 {
        assert forall|q: nat| q < cells implies product_rounds(
            element_wise,
            accum,
            lhs,
            rhs,
            n,
            memory,
        )[#[trigger] accum.nth(q)] == product_element(
            element_wise,
            accum,
            lhs,
            rhs,
            memory,
            row_major::delinearize(accum.sizes, q)[0],
            row_major::delinearize(accum.sizes, q)[1],
            products_added(n, q, inner),
        ) by {
            lemma_two_dim(accum.sizes, q);
            lemma_mul_nonnegative(q as int, inner as int);
        }
    } else {
        let last = (n - 1) as nat;
        lemma_product_rounds(element_wise, accum, lhs, rhs, last, memory);
        let before = product_rounds(element_wise, accum, lhs, rhs, last, memory);
        let after = product_rounds(element_wise, accum, lhs, rhs, n, memory);
        if inner == 0 {
            lemma_mul_basics(cells as int);
            assert(cells * inner == 0);
            assert(false);
        }
        let q0 = last / inner;
        let k0 = last % inner;
        lemma_fundamental_div_mod(last as int, inner as int);
        lemma_mod_bound(last as int, inner as int);
        assert(inner * q0 == q0 * inner) by {
            lemma_mul_is_commutative(inner as int, q0 as int);
        }
        assert(q0 < cells) by (nonlinear_arith)
            requires
                last < cells * inner,
                last == q0 * inner + k0,
                inner > 0,
        ;
        let index = row_major::delinearize(bounds, last);
        let cell_index = row_major::delinearize(accum.sizes, q0);
        assert(index =~= cell_index.push(k0));
        lemma_two_dim(accum.sizes, q0);
        let i = cell_index[0];
        let j = cell_index[1];
        let cell = accum.nth(q0);
        assert(accum.address(at(index[0], index[1])) == cell) by {
            assert(at(index[0], index[1]) =~= cell_index);
        }
        let a_at = lhs.address(at(i, k0));
        let b_at = rhs.address(at(k0, j));
        assert(at(index[0], index[2]) =~= at(i, k0));
        assert(at(index[2], index[1]) =~= at(k0, j));
        assert(accum.avoids(a_at)) by {
            assert(row_major::in_bounds(lhs.sizes, at(i, k0)));
            lemma_address_is_nth(lhs, at(i, k0));
        }
        assert(accum.avoids(b_at)) by {
            assert(row_major::in_bounds(rhs.sizes, at(k0, j)));
            lemma_address_is_nth(rhs, at(k0, j));
        }
        assert(before[a_at] == memory[a_at]);
        assert(before[b_at] == memory[b_at]);
        assert((q0 + 1) * inner == q0 * inner + inner) by (nonlinear_arith);
        assert(products_added(last, q0, inner) == k0);
        assert(products_added(n, q0, inner) == k0 + 1);
        assert(after == before.insert(
            cell,
            element_wise(
                ElementWiseKind::Add,
                before[cell],
                element_wise(ElementWiseKind::Mul, memory[a_at], memory[b_at]),
            ),
        ));
        assert forall|q: nat| q < cells implies after[#[trigger] accum.nth(q)] == product_element(
            element_wise,
            accum,
            lhs,
            rhs,
            memory,
            row_major::delinearize(accum.sizes, q)[0],
            row_major::delinearize(accum.sizes, q)[1],
            products_added(n, q, inner),
        ) by {
            if q == q0 {
                assert(before[accum.nth(q0)] == product_element(
                    element_wise,
                    accum,
                    lhs,
                    rhs,
                    memory,
                    i,
                    j,
                    k0,
                ));
            } else {
                if q < q0 {
                    assert(accum.nth(q) != accum.nth(q0));
                    assert((q + 1) * inner <= q0 * inner) by (nonlinear_arith)
                        requires
                            q + 1 <= q0,
                    ;
                    assert((q + 1) * inner == q * inner + inner) by (nonlinear_arith);
                } else {
                    assert(accum.nth(q0) != accum.nth(q));
                    assert((q0 + 1) * inner <= q * inner) by (nonlinear_arith)
                        requires
                            q0 + 1 <= q,
                    ;
                }
                assert(products_added(n, q, inner) == products_added(last, q, inner));
                assert(after[accum.nth(q)] == before[accum.nth(q)]);
            }
        }
        assert forall|address: int| accum.avoids(address) implies #[trigger] after[address]
            == memory[address] by {
            assert(accum.nth(q0) != address);
            assert(before[address] == memory[address]);
        }
    }
}

/// After the product of two matrices is added to a third one, each element is the one before
/// plus the sum over `k` of `lhs[row, k] * rhs[k, column]`, and the rest of memory is as
/// before.
pub proof fn law_mat_mul(m: Machine, accum: Desc, lhs: Desc, rhs: Desc, memory: Memory)
    requires
        multipliable(accum, lhs, rhs),
    ensures
        forall|row: nat, column: nat|
            row < accum.sizes[0] && column < accum.sizes[1] ==> m.multiplied(
                accum,
                lhs,
                rhs,
                memory,
            )[#[trigger] accum.address(at(row, column))] == product_element(
                m.element_wise(),
                accum,
                lhs,
                rhs,
                memory,
                row,
                column,
                lhs.sizes[1],
            ),
        forall|address: int|
            accum.avoids(address) ==> #[trigger] m.multiplied(accum, lhs, rhs, memory)[address]
                == memory[address],
{
    let inner = lhs.sizes[1];
    let bounds = seq![accum.sizes[0], accum.sizes[1], inner];
    let total = row_major::product(bounds);
    let cells = accum.count();
    assert(bounds.drop_last() =~= accum.sizes);
    lemma_product_rounds(m.element_wise(), accum, lhs, rhs, total, memory);
    assert forall|row: nat, column: nat|
        row < accum.sizes[0] && column < accum.sizes[1] implies m.multiplied(
        accum,
        lhs,
        rhs,
        memory,
    )[#[trigger] accum.address(at(row, column))] == product_element(
        m.element_wise(),
        accum,
        lhs,
        rhs,
        memory,
        row,
        column,
        inner,
    ) by {
        let idxs = at(row, column);
        assert(row_major::in_bounds(accum.sizes, idxs));
        lemma_address_is_nth(accum, idxs);
        let q = row_major::linearize(accum.sizes, idxs);
        row_major::lemma_linearize(accum.sizes, idxs);
        assert(row_major::delinearize(accum.sizes, q) == idxs);
        assert((q + 1) * inner <= cells * inner) by (nonlinear_arith)
            requires
                q + 1 <= cells,
        ;
        assert((q + 1) * inner == q * inner + inner) by (nonlinear_arith);
        assert(products_added(total, q, inner) == inner);
    }
}

/// The reference is to a value of the program or to one of the first `n` steps.
pub open spec fn settled(r: Ref, n: nat) -> bool {
    match r {
        Ref::Value(_) => true,
        Ref::Step(k) => k < n,
        Ref::Outer(k) => k < n,
        Ref::Induction(_) => true,
        Ref::Size { step, dim } => step < n,
        Ref::Stride { step, dim } => step < n,
        Ref::Count(k) => k < n,
        Ref::Allocated(k) => k < n,
        Ref::Aligned(k) => k < n,
        Ref::Offset(k) => k < n,
    }
}

/// `longer` begins with `steps`.
pub open spec fn begins_with(longer: Seq<StepView>, steps: Seq<StepView>) -> bool {
    steps.len() <= longer.len() && steps == longer.take(steps.len() as int)
}

impl Machine {
    /// The results of all steps.
    pub open spec fn results(self, memory: Memory, steps: Seq<StepView>) -> Seq<Runtime> {
        self.run(memory, steps, steps.len()).0
    }

    /// The memory after all steps.
    pub open spec fn memory_after(self, memory: Memory, steps: Seq<StepView>) -> Memory {
        self.run(memory, steps, steps.len()).1
    }

    /// Unfolds the last of the first `n` steps.
    pub proof fn lemma_run_step(self, memory: Memory, steps: Seq<StepView>, n: nat)
        requires
            n > 0,
        ensures
            ({
                let (results, before) = self.run(memory, steps, (n - 1) as nat);
                let (result, after) = self.step(results, before, steps[n - 1]);
                &&& self.run(memory, steps, n).0 == results.push(result)
                &&& self.run(memory, steps, n).1 == after
                &&& results.len() == n - 1
            }),
    {
        self.lemma_run_len(memory, steps, (n - 1) as nat);
    }

    /// Unfolds the last of the first `n` steps of a body.
    pub proof fn lemma_body_step(
        self,
        outer: Seq<Runtime>,
        index: Seq<nat>,
        memory: Memory,
        body: Seq<BodyStepView>,
        n: nat,
    )
        requires
            n > 0,
        ensures
            ({
                let (results, before) = self.body(outer, index, memory, body, (n - 1) as nat);
                let (result, after) = self.body_step(outer, index, results, before, body[n - 1]);
                &&& self.body(outer, index, memory, body, n).0 == results.push(result)
                &&& self.body(outer, index, memory, body, n).1 == after
                &&& results.len() == n - 1
            }),
    {
        self.lemma_body_len(outer, index, memory, body, (n - 1) as nat);
    }

    /// There is one result for each step of a body.
    pub proof fn lemma_body_len(
        self,
        outer: Seq<Runtime>,
        index: Seq<nat>,
        memory: Memory,
        body: Seq<BodyStepView>,
        n: nat,
    )
        ensures
            self.body(outer, index, memory, body, n).0.len() == n,
        decreases n,
    {
        if n > 0 {
            self.lemma_body_len(outer, index, memory, body, (n - 1) as nat);
        }
    }

    /// There is one result for each step.
    pub proof fn lemma_run_len(self, memory: Memory, steps: Seq<StepView>, n: nat)
        ensures
            self.run(memory, steps, n).0.len() == n,
        decreases n,
    {
        if n > 0 {
            self.lemma_run_len(memory, steps, (n - 1) as nat);
        }
    }

    /// What the first steps give does not depend on those that come after them.
    pub proof fn lemma_run_prefix(
        self,
        memory: Memory,
        steps: Seq<StepView>,
        longer: Seq<StepView>,
        n: nat,
    )
        requires
            begins_with(longer, steps),
            n <= steps.len(),
        ensures
            self.run(memory, longer, n) == self.run(memory, steps, n),
        decreases n,
    {
        if n > 0 {
            self.lemma_run_prefix(memory, steps, longer, (n - 1) as nat);
            assert(longer[n - 1] == longer.take(steps.len() as int)[n - 1]);
        }
    }

    proof fn lemma_run_take(self, memory: Memory, steps: Seq<StepView>, k: nat, n: nat, i: int)
        requires
            k <= n,
            0 <= i < k,
        ensures
            self.run(memory, steps, n).0[i] == self.run(memory, steps, k).0[i],
        decreases n,
    {
        if k < n {
            self.lemma_run_take(memory, steps, k, (n - 1) as nat, i);
            self.lemma_run_len(memory, steps, (n - 1) as nat);
        }
    }

    /// A reference to an earlier step stays what it is as steps are added.
    pub proof fn lemma_settled(
        self,
        memory: Memory,
        steps: Seq<StepView>,
        longer: Seq<StepView>,
        r: Ref,
    )
        requires
            begins_with(longer, steps),
            settled(r, steps.len()),
        ensures
            self.get(self.results(memory, longer), r) == self.get(
                self.results(memory, steps),
                r,
            ),
    {
        self.lemma_run_prefix(memory, steps, longer, steps.len());
        assert forall|i: int| 0 <= i < steps.len() implies self.results(memory, longer)[i]
            == #[trigger] self.results(memory, steps)[i] by {
            self.lemma_run_take(memory, longer, steps.len(), longer.len(), i);
        }
    }

    /// One more step.
    pub proof fn lemma_run_push(self, memory: Memory, steps: Seq<StepView>, step: StepView)
        ensures
            begins_with(steps.push(step), steps),
            self.results(memory, steps.push(step)) == self.results(memory, steps).push(
                self.step(self.results(memory, steps), self.memory_after(memory, steps), step).0,
            ),
            self.memory_after(memory, steps.push(step)) == self.step(
                self.results(memory, steps),
                self.memory_after(memory, steps),
                step,
            ).1,
            self.results(memory, steps).len() == steps.len(),
    {
        let longer = steps.push(step);
        assert(longer.take(steps.len() as int) =~= steps);
        self.lemma_run_prefix(memory, steps, longer, steps.len());
        self.lemma_run_len(memory, steps, steps.len());
    }
}

} // verus!
