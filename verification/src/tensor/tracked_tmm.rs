//! Memory whose allocations are tracked.

use crate::ir;
use crate::ir::{
    Context, IntegerType, Operation, Signedness, TypeHandle, TypeObj, TypeView, Value,
};
use crate::memref::attributes::ConstPointerAttr;
use crate::memref::conversions;
use crate::memref::lowering_laws;
use crate::memref::type_interfaces;
use crate::memref::type_interfaces::ShapedType;
use crate::plan;
use crate::plan::{Callee, Plan, PlanView, Ref, ReplacementOf, Step, StepOf};
use crate::semantics;
use crate::semantics::{Machine, Memory, Runtime};
use crate::tensor::bufferize_laws;
use crate::tensor::memory_management::{
    MemrefAllocOpInterface, MemrefDeallocOpInterface, StaticInfo, TensorMemoryManager,
};
use crate::text;
use std::collections::HashSet;
use vstd::prelude::*;

verus! {

/// Keeps track of the allocations that have not been freed.
///
/// Code that allocates calls [tracked_malloc] with what `malloc` gave it, and code that frees
/// calls [tracked_dealloc] before it does.
#[derive(Debug)]
pub struct TrackedTMM {
    live: HashSet<usize>,
}

impl View for TrackedTMM {
    type V = Set<usize>;

    closed spec fn view(&self) -> Set<usize> {
        self.live@
    }
}

impl TrackedTMM {
    /// Nothing is tracked.
    pub fn new() -> (r: Self)
        ensures
            r@ == Set::<usize>::empty(),
    {
        TrackedTMM { live: HashSet::new() }
    }

    /// The addresses that are allocated and not yet freed.
    pub fn tracked_allocations(&self) -> (r: &HashSet<usize>)
        ensures
            r@ == self@,
    {
        &self.live
    }

    /// Gives all tracked addresses, each once and in no particular order, and tracks none of
    /// them any more. The caller frees them.
    pub fn free_all(&mut self) -> (r: Vec<usize>)
        ensures
            r@.to_set() == old(self)@,
            r@.no_duplicates(),
            final(self)@ == Set::<usize>::empty(),
    {
        broadcast use vstd::std_specs::hash::group_hash_axioms;

        let mut freed: Vec<usize> = Vec::new();
        for address in it: self.live.iter()
            invariant
                it.seq().unref().to_set() == self.live@,
                it.seq().no_duplicates(),
                freed@.len() == it.index(),
                forall|i: int| 0 <= i < freed@.len() ==> #[trigger] freed@[i] == *it.seq()[i],
                forall|a: usize| #[trigger] freed@.contains(a) ==> self.live@.contains(a),
                forall|a: usize| #[trigger]
                    self.live@.contains(a) ==> freed@.contains(a) || exists|i: int|
                        it.index() <= i < it.seq().len() && *#[trigger] it.seq()[i] == a,
        {
            let ghost before = freed@;
            freed.push(*address);
            proof {
                assert(it.seq().unref()[it.index() as int] == *address);
                assert(it.seq().unref().to_set().contains(*address));
                assert forall|a: usize| #[trigger] freed@.contains(a) implies self.live@.contains(
                    a,
                ) by {
                    if before.contains(a) {
                        assert(self.live@.contains(a));
                    }
                }
                assert forall|a: usize| #[trigger] self.live@.contains(a) implies freed@.contains(a)
                    || exists|i: int|
                    it.index() + 1 <= i < it.seq().len() && *#[trigger] it.seq()[i] == a by {
                    if before.contains(a) {
                        let k = choose|k: int| 0 <= k < before.len() && before[k] == a;
                        assert(freed@[k] == a);
                    } else {
                        assert(freed@[before.len() as int] == *address);
                    }
                }
            }
        }
        assert(freed@.to_set() =~= self.live@);
        self.live.clear();
        freed
    }
}

#[derive(Debug)]
pub enum TrackedMemoryManagerErr {
    AllocNumDynamicDimsMismatch { expected: usize, got: usize },
    MissingSelfPointerAttr,
    NearestSymbolTableNotFound,
    ExpectedConstPointerAttr,
    LLJITSymbolError(String),
}

/// Records an address that `malloc` gave, and hands it on.
pub fn tracked_malloc(state: &mut TrackedTMM, allocated: usize) -> (r: usize)
    ensures
        final(state)@ == old(state)@.insert(allocated),
        r == allocated,
{
    broadcast use vstd::std_specs::hash::group_hash_axioms;

    state.live.insert(allocated);
    allocated
}

/// Forgets an address, and hands it on to `free`.
pub fn tracked_dealloc(state: &mut TrackedTMM, address: usize) -> (freed: usize)
    ensures
        final(state)@ == old(state)@.remove(address),
        freed == address,
{
    broadcast use vstd::std_specs::hash::group_hash_axioms;

    state.live.remove(&address);
    assert(state@ =~= old(state)@.remove(address));
    address
}

/// Something that happens to memory.
pub enum MemoryEvent {
    Malloc(usize),
    Dealloc(usize),
}

/// What is recorded after some events.
pub open spec fn recorded(events: Seq<MemoryEvent>) -> Set<usize>
    decreases events.len(),
{
    if events.len() == 0 {
        Set::empty()
    } else {
        let before = recorded(events.drop_last());
        match events.last() {
            MemoryEvent::Malloc(address) => before.insert(address),
            MemoryEvent::Dealloc(address) => before.remove(address),
        }
    }
}

/// The address was allocated, and has not been freed since.
pub open spec fn is_live(events: Seq<MemoryEvent>, address: usize) -> bool {
    exists|i: int|
        0 <= i < events.len() && #[trigger] events[i] == MemoryEvent::Malloc(address) && forall|
            j: int,
        |
            i < j < events.len() ==> #[trigger] events[j] != MemoryEvent::Dealloc(address)
}

/// What is handed to `free` after some events, in order.
pub open spec fn handed_to_free(events: Seq<MemoryEvent>) -> Seq<usize>
    decreases events.len(),
{
    if events.len() == 0 {
        Seq::empty()
    } else {
        let before = handed_to_free(events.drop_last());
        match events.last() {
            MemoryEvent::Malloc(_) => before,
            MemoryEvent::Dealloc(address) => before.push(address),
        }
    }
}

/// Freeing what was just allocated, and was not recorded before, leaves the records as they
/// were, and hands that address, and no other, to `free`.
pub proof fn law_dealloc_undoes_malloc(events: Seq<MemoryEvent>, address: usize)
    requires
        !recorded(events).contains(address),
    ensures
        ({
            let after = events.push(MemoryEvent::Malloc(address)).push(
                MemoryEvent::Dealloc(address),
            );
            &&& recorded(events).insert(address).remove(address) == recorded(events)
            &&& recorded(after) == recorded(events)
            &&& handed_to_free(after) == handed_to_free(events).push(address)
        }),
{
    let middle = events.push(MemoryEvent::Malloc(address));
    let after = middle.push(MemoryEvent::Dealloc(address));
    assert(middle.drop_last() =~= events);
    assert(after.drop_last() =~= middle);
    assert(recorded(middle) == recorded(events).insert(address));
    assert(recorded(after) == recorded(middle).remove(address));
    assert(handed_to_free(middle) == handed_to_free(events));
    assert(recorded(after) =~= recorded(events));
}

/// What is recorded is what was allocated and has not been freed since.
pub proof fn law_recorded_is_live(events: Seq<MemoryEvent>, address: usize)
    ensures
        recorded(events).contains(address) <==> is_live(events, address),
    decreases events.len(),
{
    if events.len() > 0 {
        let before = events.drop_last();
        let last = events.len() - 1;
        law_recorded_is_live(before, address);
        if events.last() == MemoryEvent::Malloc(address) {
            assert(events[last] == MemoryEvent::Malloc(address));
        } else if events.last() == MemoryEvent::Dealloc(address) {
            assert(events[last] == MemoryEvent::Dealloc(address));
        } else {
            if is_live(before, address) {
                let i = choose|i: int|
                    0 <= i < before.len() && #[trigger] before[i] == MemoryEvent::Malloc(address)
                        && forall|j: int|
                        i < j < before.len() ==> #[trigger] before[j] != MemoryEvent::Dealloc(
                            address,
                        );
                assert(events[i] == MemoryEvent::Malloc(address));
                assert forall|j: int| i < j < events.len() implies #[trigger] events[j]
                    != MemoryEvent::Dealloc(address) by {
                    if j < last {
                        assert(events[j] == before[j]);
                    }
                }
            }
            if is_live(events, address) {
                let i = choose|i: int|
                    0 <= i < events.len() && #[trigger] events[i] == MemoryEvent::Malloc(address)
                        && forall|j: int|
                        i < j < events.len() ==> #[trigger] events[j] != MemoryEvent::Dealloc(
                            address,
                        );
                assert(before[i] == MemoryEvent::Malloc(address));
                assert forall|j: int| i < j < before.len() implies #[trigger] before[j]
                    != MemoryEvent::Dealloc(address) by {
                    assert(before[j] == events[j]);
                }
            }
        }
    }
}

/// A function that the code calls and that is defined elsewhere.
#[derive(Debug)]
pub struct Declaration {
    pub name: Vec<char>,
    pub ty: TypeHandle,
}

/// The type of a function that takes the records and a size, and returns an address.
pub open spec fn tracked_malloc_type(ctx: Context) -> TypeView {
    let pointer = ctx.handle_of(TypeView::Pointer);
    TypeView::Function {
        result: pointer,
        arguments: seq![pointer, ctx.handle_of(conversions::word_type())],
    }
}

/// The type of a function that takes the records and an address.
pub open spec fn tracked_dealloc_type(ctx: Context) -> TypeView {
    let pointer = ctx.handle_of(TypeView::Pointer);
    TypeView::Function {
        result: ctx.handle_of(TypeView::Void),
        arguments: seq![pointer, pointer],
    }
}

/// The declaration of [tracked_malloc], which a symbol table must hold where it is called.
pub fn declare_tracked_malloc(ctx: &mut Context) -> (r: Declaration)
    requires
        old(ctx).wf(),
    ensures
        final(ctx).wf(),
        final(ctx).extends(*old(ctx)),
        final(ctx).holds(TypeView::Pointer),
        final(ctx).holds(conversions::word_type()),
        final(ctx).has(r.ty),
        final(ctx).get(r.ty) == tracked_malloc_type(*final(ctx)),
        r.name@ == "tracked_malloc"@,
{
    let pointer: TypeHandle = ctx.intern(TypeObj::Pointer);
    let ghost ctx1 = *ctx;
    let word: TypeHandle = ctx.intern(
        TypeObj::Integer(IntegerType { width: 64, signedness: Signedness::Signless }),
    );
    let ghost ctx2 = *ctx;
    let ty: TypeHandle = ctx.intern(
        TypeObj::Function { result: pointer, arguments: vec![pointer, word] },
    );
    proof {
        assert(ctx2@[pointer.id as int] == ctx1@[pointer.id as int]);
        assert(ctx@[pointer.id as int] == ctx2@[pointer.id as int]);
        assert(ctx@[word.id as int] == ctx2@[word.id as int]);
        ir::lemma_handle_of(*ctx, pointer);
        ir::lemma_handle_of(*ctx, word);
        assert(ctx.get(ty) =~= tracked_malloc_type(*ctx));
    }
    let mut name: Vec<char> = Vec::new();
    text::push_str(&mut name, "tracked_malloc");
    assert(name@ =~= "tracked_malloc"@);
    Declaration { name, ty }
}

/// The declaration of [tracked_dealloc], which a symbol table must hold where it is called.
pub fn declare_tracked_dealloc(ctx: &mut Context) -> (r: Declaration)
    requires
        old(ctx).wf(),
    ensures
        final(ctx).wf(),
        final(ctx).extends(*old(ctx)),
        final(ctx).holds(TypeView::Pointer),
        final(ctx).holds(TypeView::Void),
        final(ctx).has(r.ty),
        final(ctx).get(r.ty) == tracked_dealloc_type(*final(ctx)),
        r.name@ == "tracked_dealloc"@,
{
    let pointer: TypeHandle = ctx.intern(TypeObj::Pointer);
    let ghost ctx1 = *ctx;
    let void: TypeHandle = ctx.intern(TypeObj::Void);
    let ghost ctx2 = *ctx;
    let ty: TypeHandle = ctx.intern(
        TypeObj::Function { result: void, arguments: vec![pointer, pointer] },
    );
    proof {
        assert(ctx2@[pointer.id as int] == ctx1@[pointer.id as int]);
        assert(ctx@[pointer.id as int] == ctx2@[pointer.id as int]);
        assert(ctx@[void.id as int] == ctx2@[void.id as int]);
        ir::lemma_handle_of(*ctx, pointer);
        ir::lemma_handle_of(*ctx, void);
        assert(ctx.get(ty) =~= tracked_dealloc_type(*ctx));
    }
    let mut name: Vec<char> = Vec::new();
    text::push_str(&mut name, "tracked_dealloc");
    assert(name@ =~= "tracked_dealloc"@);
    Declaration { name, ty }
}

/// Allocates a memref and records the allocation.
#[derive(Debug)]
pub struct TrackedAllocOp {
    pub op: Operation,
    /// Where the records are kept.
    pub memref_tmm_ptr_alloc: Option<ConstPointerAttr>,
}

impl TrackedAllocOp {
    /// One result, which is a ranked memref.
    pub open spec fn wf(&self, ctx: Context) -> bool {
        &&& self.op.typed_in(ctx)
        &&& self.op.result_types@.len() == 1
        &&& ctx.as_memref(self.op.result_types@[0]) is Some
    }

    /// Makes an operation that records the allocation at `tmm`.
    pub fn new_with_tmm(
        result_ty: TypeHandle,
        dynamic_dimensions: Vec<Value>,
        tmm: ConstPointerAttr,
    ) -> (r: Self)
        ensures
            r.op.operands@ == dynamic_dimensions@,
            r.op.result_types@ == seq![result_ty],
            r.memref_tmm_ptr_alloc == Some(tmm),
    {
        TrackedAllocOp {
            op: Operation { operands: dynamic_dimensions, result_types: vec![result_ty] },
            memref_tmm_ptr_alloc: Some(tmm),
        }
    }

    /// The sizes of the dynamic dimensions.
    pub fn get_dynamic_dimensions(&self) -> (r: Vec<Value>)
        ensures
            r@ == self.op.operands@,
    {
        ir::copy_values(self.op.operands.as_slice())
    }

    pub open spec fn verdict(&self, ctx: Context) -> Result<(), TrackedMemoryManagerErr> {
        let expected = type_interfaces::num_dynamic(
            ctx.as_memref(self.op.result_types@[0])->Some_0.shape,
        );
        let got = self.op.operands@.len();
        if self.memref_tmm_ptr_alloc is None {
            Err(TrackedMemoryManagerErr::MissingSelfPointerAttr)
        } else if got != expected {
            Err(
                TrackedMemoryManagerErr::AllocNumDynamicDimsMismatch {
                    expected: expected as usize,
                    got: got as usize,
                },
            )
        } else {
            Ok(())
        }
    }

    /// The address of the records is there, and there is one operand for each dynamic
    /// dimension.
    pub fn verify(&self, ctx: &Context) -> (r: Result<(), TrackedMemoryManagerErr>)
        requires
            self.wf(*ctx),
        ensures
            r == self.verdict(*ctx),
    {
        if self.memref_tmm_ptr_alloc.is_none() {
            return Err(TrackedMemoryManagerErr::MissingSelfPointerAttr);
        }
        assert(ctx.has(self.op.result_types@[0]));
        let memref_ty = ctx.ranked_memref(self.op.result_types[0]).unwrap();
        let expected: usize = memref_ty.num_dynamic_dimensions();
        let got: usize = self.op.operands.len();
        if got != expected {
            return Err(TrackedMemoryManagerErr::AllocNumDynamicDimsMismatch { expected, got });
        }
        Ok(())
    }

    /// The plan that replaces the operation.
    pub open spec fn lowered(&self, ctx: Context) -> PlanView {
        let ty = self.op.result_types@[0];
        let memref = ctx.as_memref(ty)->Some_0;
        let rank = memref.shape.len();
        PlanView {
            steps: seq![
                StepOf::Layout { ty, dynamic: plan::value_refs(self.op.operands@) },
                StepOf::TypeSize(memref.element_type),
                StepOf::Mul(Ref::Step(1), Ref::Count(0)),
                StepOf::IntegerConstant(self.memref_tmm_ptr_alloc->Some_0.0 as u64),
                StepOf::IntToPtr(Ref::Step(3)),
                StepOf::Call {
                    callee: Callee::TrackedMalloc,
                    arguments: seq![Ref::Step(4), Ref::Step(2)],
                },
                StepOf::IndexConstant(0),
                StepOf::PackDescriptor {
                    ty,
                    allocated: Ref::Step(5),
                    aligned: Ref::Step(5),
                    offset: Ref::Step(6),
                    extents: plan::size_refs(0, rank),
                    strides: plan::stride_refs(0, rank),
                },
            ],
            replacement: ReplacementOf::Values(seq![Ref::Step(7)]),
        }
    }

    /// Replaces the allocation by a call of `tracked_malloc` for so many bytes as the elements
    /// need, and a row-major descriptor at the address that comes back.
    ///
    /// `has_symbol_table` says whether there is a symbol table to declare `tracked_malloc` in.
    pub fn rewrite(&self, ctx: &Context, has_symbol_table: bool) -> (r: Result<
        Plan,
        TrackedMemoryManagerErr,
    >)
        requires
            self.wf(*ctx),
            self.memref_tmm_ptr_alloc is Some,
        ensures
            match r {
                Ok(plan) => has_symbol_table && plan@ == self.lowered(*ctx),
                Err(error) => !has_symbol_table && error is NearestSymbolTableNotFound,
            },
    {
        let ty: TypeHandle = self.op.result_types[0];
        assert(ctx.has(self.op.result_types@[0]));
        let memref_ty = ctx.ranked_memref(ty).unwrap();
        let rank: usize = memref_ty.rank();
        let mut steps: Vec<Step> = Vec::new();
        plan::push(
            &mut steps,
            StepOf::Layout { ty, dynamic: plan::refs_to_values(&self.op.operands) },
        );
        let element_size: Ref = plan::push(&mut steps, StepOf::TypeSize(memref_ty.element_type));
        let bytes: Ref = plan::push(&mut steps, StepOf::Mul(element_size, Ref::Count(0)));
        if !has_symbol_table {
            return Err(TrackedMemoryManagerErr::NearestSymbolTableNotFound);
        }
        let state: Ref = emit_tmm_state_ptr(&mut steps, self.memref_tmm_ptr_alloc.unwrap());
        let allocated: Ref = plan::push(
            &mut steps,
            StepOf::Call { callee: Callee::TrackedMalloc, arguments: vec![state, bytes] },
        );
        let offset: Ref = plan::push(&mut steps, StepOf::IndexConstant(0));
        let descriptor: Ref = plan::push(
            &mut steps,
            StepOf::PackDescriptor {
                ty,
                allocated,
                aligned: allocated,
                offset,
                extents: plan::refs_to_sizes(0, rank),
                strides: plan::refs_to_strides(0, rank),
            },
        );
        let plan = Plan { steps, replacement: ReplacementOf::Values(vec![descriptor]) };
        assert(plan@.steps =~~= self.lowered(*ctx).steps);
        assert(plan@ =~= self.lowered(*ctx));
        Ok(plan)
    }
}

/// Appends the steps that make an address of a number, and gives the reference to it.
fn emit_tmm_state_ptr(steps: &mut Vec<Step>, tmm: ConstPointerAttr) -> (r: Ref)
    ensures
        plan::steps_view(final(steps)@) == plan::steps_view(old(steps)@).push(
            StepOf::IntegerConstant(tmm.0 as u64),
        ).push(StepOf::IntToPtr(Ref::Step(old(steps)@.len() as usize))),
        final(steps)@.len() == old(steps)@.len() + 2,
        r == Ref::Step((old(steps)@.len() + 1) as usize),
{
    let address: Ref = plan::push(steps, StepOf::IntegerConstant(tmm.0 as u64));
    plan::push(steps, StepOf::IntToPtr(address))
}

impl MemrefAllocOpInterface for TrackedAllocOp {
    open spec fn allocated_type(&self) -> TypeHandle {
        self.op.result_types@[0]
    }

    open spec fn sizes(&self) -> Seq<Value> {
        self.op.operands@
    }

    open spec fn made_with(&self) -> Option<StaticInfo> {
        match self.memref_tmm_ptr_alloc {
            Some(tmm) => Some(StaticInfo::Pointer(tmm)),
            None => None,
        }
    }

    open spec fn accepts(static_info: Option<StaticInfo>) -> bool {
        static_info matches Some(StaticInfo::Pointer(_))
    }

    fn try_new(
        static_info: Option<StaticInfo>,
        memref_ty: TypeHandle,
        dynamic_sizes: Vec<Value>,
    ) -> (r: Result<Self, TrackedMemoryManagerErr>)
        ensures
            r matches Ok(op) ==> op.made_with() == static_info,
    {
        match static_info {
            Some(StaticInfo::Pointer(tmm)) => Ok(
                TrackedAllocOp::new_with_tmm(memref_ty, dynamic_sizes, tmm),
            ),
            _ => Err(TrackedMemoryManagerErr::ExpectedConstPointerAttr),
        }
    }
}

/// Deallocates a memref and removes it from the records.
#[derive(Debug)]
pub struct TrackedDeallocOp {
    pub op: Operation,
    /// Where the records are kept.
    pub memref_tmm_ptr_dealloc: Option<ConstPointerAttr>,
}

impl TrackedDeallocOp {
    /// One operand.
    pub open spec fn wf(&self) -> bool {
        self.op.operands@.len() == 1
    }

    /// Makes an operation that removes the allocation from the records at `tmm`.
    pub fn new_with_tmm(memref: Value, tmm: ConstPointerAttr) -> (r: Self)
        ensures
            r.op.operands@ == seq![memref],
            r.op.result_types@ == Seq::<TypeHandle>::empty(),
            r.memref_tmm_ptr_dealloc == Some(tmm),
    {
        let r = TrackedDeallocOp {
            op: Operation { operands: vec![memref], result_types: Vec::new() },
            memref_tmm_ptr_dealloc: Some(tmm),
        };
        assert(r.op.result_types@ =~= Seq::<TypeHandle>::empty());
        r
    }

    /// The memref to deallocate.
    pub fn get_memref(&self) -> (r: Value)
        requires
            self.wf(),
        ensures
            r == self.op.operands@[0],
    {
        self.op.operands[0]
    }

    /// The address of the records is there.
    pub fn verify(&self) -> (r: Result<(), TrackedMemoryManagerErr>)
        ensures
            match r {
                Ok(_) => self.memref_tmm_ptr_dealloc is Some,
                Err(error) => self.memref_tmm_ptr_dealloc is None
                    && error is MissingSelfPointerAttr,
            },
    {
        if self.memref_tmm_ptr_dealloc.is_none() {
            return Err(TrackedMemoryManagerErr::MissingSelfPointerAttr);
        }
        Ok(())
    }

    /// The plan that replaces the operation.
    pub open spec fn lowered(&self) -> PlanView {
        PlanView {
            steps: seq![
                StepOf::UnpackAllocated(Ref::Value(self.op.operands@[0])),
                StepOf::IntegerConstant(self.memref_tmm_ptr_dealloc->Some_0.0 as u64),
                StepOf::IntToPtr(Ref::Step(1)),
                StepOf::Call {
                    callee: Callee::TrackedDealloc,
                    arguments: seq![Ref::Step(2), Ref::Step(0)],
                },
            ],
            replacement: ReplacementOf::Step(3),
        }
    }

    /// Replaces the deallocation by a call of `tracked_dealloc` on the allocated pointer.
    ///
    /// `has_symbol_table` says whether there is a symbol table to declare `tracked_dealloc`
    /// in.
    pub fn rewrite(&self, has_symbol_table: bool) -> (r: Result<Plan, TrackedMemoryManagerErr>)
        requires
            self.wf(),
            self.memref_tmm_ptr_dealloc is Some,
        ensures
            match r {
                Ok(plan) => has_symbol_table && plan@ == self.lowered(),
                Err(error) => !has_symbol_table && error is NearestSymbolTableNotFound,
            },
    {
        let mut steps: Vec<Step> = Vec::new();
        let allocated: Ref = plan::push(
            &mut steps,
            StepOf::UnpackAllocated(Ref::Value(self.get_memref())),
        );
        if !has_symbol_table {
            return Err(TrackedMemoryManagerErr::NearestSymbolTableNotFound);
        }
        let state: Ref = emit_tmm_state_ptr(&mut steps, self.memref_tmm_ptr_dealloc.unwrap());
        plan::push(
            &mut steps,
            StepOf::Call { callee: Callee::TrackedDealloc, arguments: vec![state, allocated] },
        );
        let plan = Plan { steps, replacement: ReplacementOf::Step(3) };
        assert(plan@.steps =~~= self.lowered().steps);
        Ok(plan)
    }
}

impl MemrefDeallocOpInterface for TrackedDeallocOp {
    open spec fn deallocated(&self) -> Seq<Value> {
        self.op.operands@
    }

    open spec fn made_with(&self) -> Option<StaticInfo> {
        match self.memref_tmm_ptr_dealloc {
            Some(tmm) => Some(StaticInfo::Pointer(tmm)),
            None => None,
        }
    }

    open spec fn accepts(static_info: Option<StaticInfo>) -> bool {
        static_info matches Some(StaticInfo::Pointer(_))
    }

    fn try_new(static_info: Option<StaticInfo>, memref: Value) -> (r: Result<
        Self,
        TrackedMemoryManagerErr,
    >)
        ensures
            r matches Ok(op) ==> op.made_with() == static_info,
    {
        match static_info {
            Some(StaticInfo::Pointer(tmm)) => Ok(TrackedDeallocOp::new_with_tmm(memref, tmm)),
            _ => Err(TrackedMemoryManagerErr::ExpectedConstPointerAttr),
        }
    }
}

impl TensorMemoryManager for TrackedTMM {
    type Alloc = TrackedAllocOp;

    type Dealloc = TrackedDeallocOp;

    type Error = TrackedMemoryManagerErr;

    fn create_memref_alloc(
        &mut self,
        at: usize,
        memref_ty: TypeHandle,
        dynamic_sizes: Vec<Value>,
    ) -> (r: Result<TrackedAllocOp, TrackedMemoryManagerErr>)
        ensures
            *final(self) == *old(self),
            r matches Ok(op) && op.op.operands@ == dynamic_sizes@ && op.op.result_types@
                == seq![memref_ty] && op.memref_tmm_ptr_alloc == Some(ConstPointerAttr(at)),
    {
        Ok(TrackedAllocOp::new_with_tmm(memref_ty, dynamic_sizes, ConstPointerAttr(at)))
    }

    fn create_memref_dealloc(&mut self, at: usize, memref: Value) -> (r: Result<
        TrackedDeallocOp,
        TrackedMemoryManagerErr,
    >)
        ensures
            *final(self) == *old(self),
            r matches Ok(op) && op.op.operands@ == seq![memref] && op.op.result_types@.len() == 0
                && op.memref_tmm_ptr_dealloc == Some(ConstPointerAttr(at)),
    {
        Ok(TrackedDeallocOp::new_with_tmm(memref, ConstPointerAttr(at)))
    }
}

/// Running a recorded allocation gives the memref that a plain allocation of the same type
/// gives.
#[verifier::rlimit(60)]
pub proof fn law_tracked_alloc_runs(op: TrackedAllocOp, m: Machine, memory: Memory)
    requires
        op.wf(m.ctx),
        op.memref_tmm_ptr_alloc is Some,
        lowering_laws::are_ints(m, op.op.operands@),
        m.ctx.as_memref(op.op.result_types@[0])->Some_0.shape.len() <= usize::MAX,
    ensures
        ({
            let ty = op.op.result_types@[0];
            let steps = op.lowered(m.ctx).steps;
            let sizes = semantics::filled_sizes(
                m.ctx.as_memref(ty)->Some_0.shape,
                lowering_laws::ints_of(m, op.op.operands@),
            );
            &&& m.results(memory, steps)[7] == Runtime::Desc(
                bufferize_laws::allocated(m, 5, ty, sizes),
            )
            &&& m.memory_after(memory, steps) == memory
        }),
{
    let ty = op.op.result_types@[0];
    let shape = m.ctx.as_memref(ty)->Some_0.shape;
    let dynamic = lowering_laws::ints_of(m, op.op.operands@);
    let sizes = semantics::filled_sizes(shape, dynamic);
    let steps = op.lowered(m.ctx).steps;
    let res = bufferize_laws::allocated(m, 5, ty, sizes);
    lowering_laws::lemma_filled_sizes_len(shape, dynamic);
    let r0 = m.run(memory, steps, 0).0;
    assert(m.ints(r0, plan::value_refs(op.op.operands@)) =~= dynamic);
    m.lemma_run_step(memory, steps, 1);
    assert(m.step(r0, memory, steps[0]).1 == memory && m.step(r0, memory, steps[0]).0
        == Runtime::Desc(
        semantics::Desc {
            allocated: 0,
            aligned: 0,
            offset: 0,
            sizes,
            strides: semantics::row_major_strides(sizes),
        },
    )) by {
        reveal(Machine::step);
    }
    let r1 = m.run(memory, steps, 1).0;
    m.lemma_run_step(memory, steps, 2);
    let element_size = (m.type_size)(m.ctx.as_memref(ty)->Some_0.element_type);
    assert(m.step(r1, memory, steps[1]) == (Runtime::Int(element_size), memory)) by {
        reveal(Machine::step);
    }
    let r2 = m.run(memory, steps, 2).0;
    m.lemma_run_step(memory, steps, 3);
    let bytes = element_size * crate::row_major::product(sizes);
    assert(m.step(r2, memory, steps[2]) == (Runtime::Int(bytes), memory)) by {
        reveal(Machine::step);
    }
    let r3 = m.run(memory, steps, 3).0;
    m.lemma_run_step(memory, steps, 4);
    assert(m.step(r3, memory, steps[3]).1 == memory) by {
        reveal(Machine::step);
    }
    let r4 = m.run(memory, steps, 4).0;
    assert(r4[2] == Runtime::Int(bytes));
    m.lemma_run_step(memory, steps, 5);
    assert(m.step(r4, memory, steps[4]).1 == memory) by {
        reveal(Machine::step);
    }
    let r5 = m.run(memory, steps, 5).0;
    assert(r5[2] == Runtime::Int(bytes));
    m.lemma_run_step(memory, steps, 6);
    let address = (m.malloc)(5, bytes);
    assert(m.step(r5, memory, steps[5]) == (Runtime::Ptr(address), memory)) by {
        reveal(Machine::step);
    }
    let r6 = m.run(memory, steps, 6).0;
    m.lemma_run_step(memory, steps, 7);
    assert(m.step(r6, memory, steps[6]) == (Runtime::Int(0), memory)) by {
        reveal(Machine::step);
    }
    let r7 = m.run(memory, steps, 7).0;
    assert(r7[0] == r1[0]);
    assert(m.ints(r7, plan::size_refs(0, shape.len())) =~= sizes);
    assert(m.ints(r7, plan::stride_refs(0, shape.len())) =~= semantics::row_major_strides(sizes));
    m.lemma_run_step(memory, steps, 8);
    assert(m.step(r7, memory, steps[7]) == (Runtime::Desc(res), memory)) by {
        reveal(Machine::step);
    }
}

} // verus!
