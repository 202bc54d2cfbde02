//! Memory of tensors.

use crate::ir::{TypeHandle, Value};
use crate::memref::attributes::ConstPointerAttr;
use crate::memref::ops::{AllocOp, DeallocOp};
use crate::tensor::tracked_tmm::TrackedMemoryManagerErr;
use vstd::prelude::*;

verus! {

/// What an operation may need to know when it is made.
#[derive(Clone, Copy, Debug, PartialEq, Eq, Structural)]
pub enum StaticInfo {
    /// An address.
    Pointer(ConstPointerAttr),
    /// Something else.
    Other,
}

/// An operation that allocates a memref.
pub trait MemrefAllocOpInterface: Sized {
    /// The type of the memref.
    spec fn allocated_type(&self) -> TypeHandle;

    /// The sizes of the dynamic dimensions.
    spec fn sizes(&self) -> Seq<Value>;

    /// What the operation was made with.
    spec fn made_with(&self) -> Option<StaticInfo>;

    /// The operation can be made with this.
    spec fn accepts(static_info: Option<StaticInfo>) -> bool;

    /// Makes an operation that allocates a memref of the type `memref_ty`.
    fn try_new(
        static_info: Option<StaticInfo>,
        memref_ty: TypeHandle,
        dynamic_sizes: Vec<Value>,
    ) -> (r: Result<Self, TrackedMemoryManagerErr>)
        ensures
            r is Ok <==> Self::accepts(static_info),
            r matches Ok(op) ==> op.allocated_type() == memref_ty && op.sizes()
                == dynamic_sizes@ && (op.made_with() is Some ==> op.made_with() == static_info),
            r matches Err(error) ==> error is ExpectedConstPointerAttr,
    ;
}

/// An operation that deallocates a memref.
pub trait MemrefDeallocOpInterface: Sized {
    /// The memref.
    spec fn deallocated(&self) -> Seq<Value>;

    /// What the operation was made with.
    spec fn made_with(&self) -> Option<StaticInfo>;

    /// The operation can be made with this.
    spec fn accepts(static_info: Option<StaticInfo>) -> bool;

    /// Makes an operation that deallocates `memref`.
    fn try_new(static_info: Option<StaticInfo>, memref: Value) -> (r: Result<
        Self,
        TrackedMemoryManagerErr,
    >)
        ensures
            r is Ok <==> Self::accepts(static_info),
            r matches Ok(op) ==> op.deallocated() == seq![memref] && (op.made_with() is Some
                ==> op.made_with() == static_info),
            r matches Err(error) ==> error is ExpectedConstPointerAttr,
    ;
}

/// Makes the operations that allocate and deallocate memrefs. A manager may change as it does.
pub trait TensorMemoryManager: Sized {
    type Alloc: MemrefAllocOpInterface;

    type Dealloc: MemrefDeallocOpInterface;

    /// Why an operation could not be made.
    type Error;

    /// Makes an operation that allocates a memref. `at` is the address of the manager.
    fn create_memref_alloc(
        &mut self,
        at: usize,
        memref_ty: TypeHandle,
        dynamic_sizes: Vec<Value>,
    ) -> (r: Result<Self::Alloc, Self::Error>)
        ensures
            r matches Ok(op) ==> op.allocated_type() == memref_ty && op.sizes() == dynamic_sizes@,
    ;

    /// Makes an operation that deallocates a memref. `at` is the address of the manager.
    fn create_memref_dealloc(&mut self, at: usize, memref: Value) -> (r: Result<
        Self::Dealloc,
        Self::Error,
    >)
        ensures
            r matches Ok(op) ==> op.deallocated() == seq![memref],
    ;
}

impl MemrefAllocOpInterface for AllocOp {
    open spec fn allocated_type(&self) -> TypeHandle {
        self.op.result_types@[0]
    }

    open spec fn sizes(&self) -> Seq<Value> {
        self.op.operands@
    }

    open spec fn made_with(&self) -> Option<StaticInfo> {
        None
    }

    open spec fn accepts(static_info: Option<StaticInfo>) -> bool {
        true
    }

    fn try_new(
        static_info: Option<StaticInfo>,
        memref_ty: TypeHandle,
        dynamic_sizes: Vec<Value>,
    ) -> (r: Result<Self, TrackedMemoryManagerErr>) {
        Ok(AllocOp::new(memref_ty, dynamic_sizes))
    }
}

impl MemrefDeallocOpInterface for DeallocOp {
    open spec fn deallocated(&self) -> Seq<Value> {
        self.op.operands@
    }

    open spec fn made_with(&self) -> Option<StaticInfo> {
        None
    }

    open spec fn accepts(static_info: Option<StaticInfo>) -> bool {
        true
    }

    fn try_new(static_info: Option<StaticInfo>, memref: Value) -> (r: Result<
        Self,
        TrackedMemoryManagerErr,
    >) {
        Ok(DeallocOp::new(memref))
    }
}

/// Allocates with `malloc`, deallocates with `free`, and keeps no books.
#[derive(Clone, Copy, Debug, PartialEq, Eq, Structural)]
pub struct MallocFreeTMM;

impl TensorMemoryManager for MallocFreeTMM {
    type Alloc = AllocOp;

    type Dealloc = DeallocOp;

    type Error = TrackedMemoryManagerErr;

    fn create_memref_alloc(
        &mut self,
        at: usize,
        memref_ty: TypeHandle,
        dynamic_sizes: Vec<Value>,
    ) -> (r: Result<AllocOp, TrackedMemoryManagerErr>)
        ensures
            *final(self) == *old(self),
            r matches Ok(op) && op.op.operands@ == dynamic_sizes@ && op.op.result_types@
                == seq![memref_ty],
    {
        Ok(AllocOp::new(memref_ty, dynamic_sizes))
    }

    fn create_memref_dealloc(&mut self, at: usize, memref: Value) -> (r: Result<
        DeallocOp,
        TrackedMemoryManagerErr,
    >)
        ensures
            *final(self) == *old(self),
            r matches Ok(op) && op.op.operands@ == seq![memref] && op.op.result_types@.len() == 0,
    {
        Ok(DeallocOp::new(memref))
    }
}

} // verus!
