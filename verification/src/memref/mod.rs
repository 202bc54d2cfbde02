//! The memref dialect.

pub mod attributes;
pub mod constant_laws;
pub mod conversions;
pub mod dense_laws;
pub mod dense_text;
pub mod elements;
pub mod hex;
pub mod literals;
pub mod lowering_laws;
pub mod op_forms;
pub mod ops;
pub mod outcome_laws;
pub mod slices;
pub mod type_interfaces;
pub mod type_laws;
pub mod type_text;
pub mod types;
pub mod verify_laws;

use crate::ir::{Context, TypeHandle, TypeView};
use crate::memref::type_interfaces::ShapedType;
use crate::tensor::types::RankedTensorType;
use vstd::prelude::*;

verus! {

/// The type that holds the storage of values of a type: a tensor is stored in a memref of the
/// same shape and element type, and other types stand for themselves.
pub open spec fn stored_as(ty: TypeView) -> TypeView {
    match ty {
        TypeView::RankedTensor { element_type, shape } => TypeView::RankedMemref {
            element_type,
            shape,
        },
        _ => ty,
    }
}

/// A type whose values are stored in a memref.
pub trait ToMemrefType: Sized {
    /// The memref type.
    spec fn converted(&self) -> TypeView;

    /// The handle of the memref type.
    fn convert(&self, ctx: &mut Context) -> (r: TypeHandle)
        requires
            old(ctx).wf(),
        ensures
            final(ctx).wf(),
            final(ctx).extends(*old(ctx)),
            final(ctx).has(r),
            final(ctx).get(r) == self.converted(),
    ;
}

/// Whether values of a type are stored in a memref.
pub fn has_memref_type(ty: TypeHandle, ctx: &Context) -> (r: bool)
    requires
        ctx.has(ty),
    ensures
        r == (ctx.as_tensor(ty) is Some),
{
    ctx.ranked_tensor(ty).is_some()
}

/// The memref type that stands for `ty`. A type whose values are not stored in a memref is
/// returned as it is.
pub fn to_memref_type(ty: TypeHandle, ctx: &mut Context) -> (r: TypeHandle)
    requires
        old(ctx).wf(),
        old(ctx).has(ty),
    ensures
        final(ctx).wf(),
        final(ctx).extends(*old(ctx)),
        final(ctx).has(r),
        final(ctx).get(r) == stored_as(old(ctx).get(ty)),
        old(ctx).as_tensor(ty) is None ==> r == ty && final(ctx)@ == old(ctx)@,
{
    let tensor = match ctx.ranked_tensor(ty) {
        Some(tensor) => RankedTensorType {
            element_type: tensor.element_type,
            shape: type_interfaces::copy_shape(&tensor.shape),
        },
        None => {
            return ty;
        },
    };
    tensor.convert(ctx)
}

} // verus!
