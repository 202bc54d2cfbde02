//! Types of the memref dialect.

use crate::ir::{Context, TypeHandle, TypeObj, TypeView};
use crate::memref::type_interfaces::{Dimension, MultiDimensionalType, ShapedType};
use vstd::prelude::*;

verus! {

/// Memref with a known number of dimensions.
#[derive(Debug)]
pub struct RankedMemrefType {
    pub element_type: TypeHandle,
    pub shape: Vec<Dimension>,
}

impl MultiDimensionalType for RankedMemrefType {
    open spec fn element(&self) -> TypeHandle {
        self.element_type
    }

    fn element_type(&self) -> (r: TypeHandle) {
        self.element_type
    }
}

impl ShapedType for RankedMemrefType {
    open spec fn dims(&self) -> Seq<Dimension> {
        self.shape@
    }

    fn shape(&self) -> (r: &Vec<Dimension>) {
        &self.shape
    }
}

impl RankedMemrefType {
    /// The handle of the memref type with the given element type and shape.
    pub fn get(ctx: &mut Context, element_type: TypeHandle, shape: Vec<Dimension>) -> (r: TypeHandle)
        requires
            old(ctx).wf(),
        ensures
            final(ctx).wf(),
            final(ctx).extends(*old(ctx)),
            final(ctx).has(r),
            final(ctx)@[r.id as int] == (TypeView::RankedMemref { element_type, shape: shape@ }),
    {
        ctx.intern(TypeObj::RankedMemref(RankedMemrefType { element_type, shape }))
    }
}

/// Memref with an unknown number of dimensions.
#[derive(Debug)]
pub struct UnrankedMemrefType {
    pub element_type: TypeHandle,
}

impl MultiDimensionalType for UnrankedMemrefType {
    open spec fn element(&self) -> TypeHandle {
        self.element_type
    }

    fn element_type(&self) -> (r: TypeHandle) {
        self.element_type
    }
}

} // verus!
