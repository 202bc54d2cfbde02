//! What operations are checked for.

use pliron_tensor::ir::{Context, IntegerType, Signedness, TypeHandle, TypeObj, Value};
use pliron_tensor::memref::attributes::{ConstPointerAttr, SliceParamAttr};
use pliron_tensor::memref::ops as memref;
use pliron_tensor::memref::slices::SliceParam;
use pliron_tensor::memref::type_interfaces::Dimension;
use pliron_tensor::memref::type_interfaces::Dimension::{Dynamic, Static};
use pliron_tensor::memref::types::RankedMemrefType;
use pliron_tensor::op_text::TextOp;
use pliron_tensor::tensor::memory_management::{
    MemrefAllocOpInterface, MemrefDeallocOpInterface, StaticInfo, TensorMemoryManager,
};
use pliron_tensor::tensor::ops as tensor;
use pliron_tensor::tensor::tracked_tmm::{
    TrackedAllocOp, TrackedDeallocOp, TrackedMemoryManagerErr, TrackedTMM,
};
use pliron_tensor::tensor::types::{RankedTensorType, UnrankedTensorType};

struct Values {
    ctx: Context,
    elem: TypeHandle,
    index: TypeHandle,
    next: usize,
}

impl Values {
    fn new() -> Self {
        let mut ctx = Context::new();
        let elem = ctx.intern(TypeObj::FP64);
        let index = ctx.intern(TypeObj::Index);
        Values {
            ctx,
            elem,
            index,
            next: 0,
        }
    }

    fn of(&mut self, ty: TypeHandle) -> Value {
        self.next += 1;
        Value { id: self.next, ty }
    }

    fn index(&mut self) -> Value {
        self.of(self.index)
    }

    fn element(&mut self) -> Value {
        self.of(self.elem)
    }

    fn memref_ty(&mut self, shape: &[Dimension]) -> TypeHandle {
        RankedMemrefType::get(&mut self.ctx, self.elem, shape.to_vec())
    }

    fn tensor_ty(&mut self, shape: &[Dimension]) -> TypeHandle {
        RankedTensorType::get(&mut self.ctx, self.elem, shape.to_vec())
    }

    fn memref(&mut self, shape: &[Dimension]) -> Value {
        let ty = self.memref_ty(shape);
        self.of(ty)
    }

    fn tensor(&mut self, shape: &[Dimension]) -> Value {
        let ty = self.tensor_ty(shape);
        self.of(ty)
    }

    /// A type that is not that of the elements.
    fn other(&mut self) -> TypeHandle {
        self.ctx.intern(TypeObj::Integer(IntegerType {
            width: 8,
            signedness: Signedness::Unsigned,
        }))
    }

    fn other_memref(&mut self, shape: &[Dimension]) -> Value {
        let elem = self.other();
        let ty = RankedMemrefType::get(&mut self.ctx, elem, shape.to_vec());
        self.of(ty)
    }

    fn other_tensor(&mut self, shape: &[Dimension]) -> Value {
        let elem = self.other();
        let ty = RankedTensorType::get(&mut self.ctx, elem, shape.to_vec());
        self.of(ty)
    }
}

fn numbers(params: &[usize]) -> Vec<SliceParam> {
    params.iter().map(|n| SliceParam::Static(*n)).collect()
}

#[test]
fn an_allocation_has_a_size_for_each_dynamic_dimension() {
    let v = &mut Values::new();
    let ty = v.memref_ty(&[Dynamic, Static(3), Dynamic]);
    let sizes = vec![v.index(), v.index()];
    assert_eq!(memref::AllocOp::new(ty, sizes.clone()).verify(&v.ctx), Ok(()));
    assert_eq!(
        memref::AllocOp::new(ty, sizes).get_dynamic_dimensions().len(),
        2
    );
    assert_eq!(
        memref::AllocOp::new(ty, vec![v.index()]).verify(&v.ctx),
        Err(
            memref::AllocOpVerifyError::NumDynamicDimOperandsDoesNotMatchNumDynamicDims {
                expected: 2,
                got: 1
            }
        )
    );
}

#[test]
fn a_store_has_an_element_and_an_index_for_each_dimension() {
    let v = &mut Values::new();
    let m = v.memref(&[Static(2), Dynamic]);
    let (element, i, j) = (v.element(), v.index(), v.index());
    let verify = |v: &Values, value, at| memref::StoreOp::new(value, m, at).verify(&v.ctx);
    assert_eq!(verify(v, element, vec![i, j]), Ok(()));
    assert_eq!(
        verify(v, i, vec![i, j]),
        Err(memref::StoreOpVerifyError::FirstOperandNotSameTypeAsMemrefElementType)
    );
    assert_eq!(
        verify(v, element, vec![i]),
        Err(memref::StoreOpVerifyError::NumIndicesDoesNotMatchMemrefRank {
            expected: 2,
            got: 1
        })
    );
    assert_eq!(
        verify(v, element, vec![i, element]),
        Err(memref::StoreOpVerifyError::IndexOperandNotOfIndexType)
    );
}

#[test]
fn a_load_has_an_element_and_an_index_for_each_dimension() {
    let v = &mut Values::new();
    let m = v.memref(&[Static(2), Dynamic]);
    let (element, i, j) = (v.element(), v.index(), v.index());
    let verify = |v: &Values, ty, at| memref::LoadOp::new(ty, m, at).verify(&v.ctx);
    assert_eq!(verify(v, v.elem, vec![i, j]), Ok(()));
    assert_eq!(
        verify(v, v.index, vec![i, j]),
        Err(memref::LoadOpVerifyErr::ResultTypeNotSameAsMemrefElementType)
    );
    assert_eq!(
        verify(v, v.elem, vec![]),
        Err(memref::LoadOpVerifyErr::NumIndicesDoesNotMatchMemrefRank {
            expected: 2,
            got: 0
        })
    );
    assert_eq!(
        verify(v, v.elem, vec![i, element]),
        Err(memref::LoadOpVerifyErr::IndexOperandNotOfIndexType)
    );
}

#[test]
fn a_product_of_memrefs_has_matching_shapes() {
    let v = &mut Values::new();
    let res = v.memref(&[Static(2), Dynamic]);
    let lhs = v.memref(&[Static(2), Static(3)]);
    let rhs = v.memref(&[Static(3), Static(4)]);
    let line = v.memref(&[Static(2)]);
    let wide = v.memref(&[Static(2), Static(5)]);
    let other = v.other_memref(&[Static(3), Static(4)]);
    let verify = |v: &Values, res, lhs, rhs| memref::MatMulOp::new(res, lhs, rhs).verify(&v.ctx);
    assert_eq!(verify(v, res, lhs, rhs), Ok(()));
    assert_eq!(
        verify(v, res, line, rhs),
        Err(memref::MatMulOpVerifyErr::OperandNot2DMemref)
    );
    assert_eq!(
        verify(v, res, lhs, other),
        Err(memref::MatMulOpVerifyErr::ElementTypeMismatch)
    );
    assert_eq!(
        verify(v, res, wide, rhs),
        Err(memref::MatMulOpVerifyErr::InnerDimMismatch { lhs_k: 5, rhs_k: 3 })
    );
    assert_eq!(
        verify(v, wide, lhs, rhs),
        Err(memref::MatMulOpVerifyErr::ResultDimMismatch {
            dim: 1,
            result_d: 5,
            expected: 4
        })
    );
}

#[test]
fn a_copy_is_between_memrefs_of_one_shape() {
    let v = &mut Values::new();
    let a = v.memref(&[Static(2), Dynamic]);
    let b = v.memref(&[Dynamic, Static(3)]);
    let c = v.memref(&[Static(4), Static(3)]);
    let line = v.memref(&[Static(2)]);
    let other = v.other_memref(&[Static(2), Static(3)]);
    let verify = |v: &Values, to, from| memref::CopyOp::new(to, from).verify(&v.ctx);
    assert_eq!(verify(v, a, b), Ok(()));
    assert_eq!(
        verify(v, a, other),
        Err(memref::CopyOpVerifyErr::ElementTypeMismatch)
    );
    assert_eq!(
        verify(v, line, b),
        Err(memref::CopyOpVerifyErr::RankMismatch)
    );
    assert_eq!(
        verify(v, a, c),
        Err(memref::CopyOpVerifyErr::IncompatibleShapes)
    );
}

#[test]
fn a_view_has_three_parameters_for_each_dimension() {
    let v = &mut Values::new();
    let source = v.memref(&[Static(8), Dynamic]);
    let result = v.memref_ty(&[Static(2), Static(3)]);
    let line = v.memref_ty(&[Static(2)]);
    let not_an_index = v.element();
    let verify = |v: &Values, offsets, sizes, steps, result| {
        memref::SubviewOp::new_with_result_type(source, offsets, sizes, steps, result)
            .verify(&v.ctx)
    };
    let (offsets, sizes, steps) = (numbers(&[0, 1]), numbers(&[2, 3]), numbers(&[1, 2]));
    assert_eq!(
        verify(v, offsets.clone(), sizes.clone(), steps.clone(), result),
        Ok(())
    );
    assert_eq!(
        verify(v, offsets.clone(), sizes.clone(), steps.clone(), line),
        Err(memref::SubviewOpVerifyErr::ResultSourceRankMismatch)
    );
    assert_eq!(
        verify(v, numbers(&[0]), sizes.clone(), steps.clone(), result),
        Err(memref::SubviewOpVerifyErr::NumOffsetsMismatch {
            expected: 2,
            got: 1
        })
    );
    assert_eq!(
        verify(v, offsets.clone(), numbers(&[2, 3, 4]), steps.clone(), result),
        Err(memref::SubviewOpVerifyErr::NumSizesMismatch {
            expected: 2,
            got: 3
        })
    );
    assert_eq!(
        verify(v, offsets.clone(), sizes.clone(), numbers(&[]), result),
        Err(memref::SubviewOpVerifyErr::NumStepsMismatch {
            expected: 2,
            got: 0
        })
    );
    assert_eq!(
        verify(v, offsets.clone(), sizes.clone(), numbers(&[1, 0]), result),
        Err(memref::SubviewOpVerifyErr::InvalidStaticStep { dim: 1 })
    );
    let dynamic = vec![SliceParam::Static(0), SliceParam::Dynamic(not_an_index)];
    assert!(matches!(
        verify(v, dynamic, sizes.clone(), steps.clone(), result),
        Err(memref::SubviewOpVerifyErr::NonIndexOperand { .. })
    ));

    let mut op = memref::SubviewOp::new_with_result_type(source, offsets, sizes, steps, result);
    op.op.operands.push(v.index());
    assert_eq!(
        op.verify(&v.ctx),
        Err(memref::SubviewOpVerifyErr::NumDynamicOperandsMismatch {
            expected: 0,
            got: 1
        })
    );
}

#[test]
fn slice_parameters_are_stored_and_loaded() {
    let v = &mut Values::new();
    let source = v.memref(&[Static(8), Dynamic]);
    let (i, j) = (v.index(), v.index());
    let offsets = vec![SliceParam::Static(7), SliceParam::Dynamic(i)];
    let sizes = vec![SliceParam::Dynamic(j), SliceParam::Static(2)];
    let steps = vec![SliceParam::Dynamic(i), SliceParam::Dynamic(j)];
    let op = memref::SubviewOp::new(
        &mut v.ctx,
        source,
        offsets.clone(),
        sizes.clone(),
        steps.clone(),
    );
    assert_eq!(op.verify(&v.ctx), Ok(()));
    assert_eq!(op.source(), source);
    assert_eq!(op.slice_offsets(), offsets);
    assert_eq!(op.slice_sizes(), sizes);
    assert_eq!(op.slice_steps(), steps);
    assert_eq!(op.dynamic_operands(), [i, j, i, j]);
    assert_eq!(op.op.result_types, [v.memref_ty(&[Dynamic, Static(2)])]);
    let params = op.slice_params.as_ref().unwrap();
    assert_eq!(
        params.offsets,
        [SliceParamAttr::Static(7), SliceParamAttr::OperandIdx(1)]
    );
}

#[test]
fn a_reshape_of_a_memref_keeps_the_elements() {
    let v = &mut Values::new();
    let source = v.memref(&[Static(2), Static(6)]);
    let (element, i) = (v.element(), v.index());
    let result = v.memref_ty(&[Static(3), Static(4)]);
    let open = v.memref_ty(&[Dynamic, Static(4)]);
    let short = v.memref_ty(&[Static(3), Static(3)]);
    let other = v.other_memref(&[Static(3), Static(4)]).ty;
    let verify = |v: &Values, source, sizes, ty| {
        memref::ReshapeOp::new(source, sizes, ty).verify(&v.ctx)
    };
    assert_eq!(verify(v, source, vec![], result), Ok(()));
    assert_eq!(verify(v, source, vec![i], open), Ok(()));
    assert_eq!(
        verify(v, element, vec![], result),
        Err(memref::ReshapeOpVerifyErr::SourceNotRankedMemref)
    );
    assert_eq!(
        verify(v, source, vec![], other),
        Err(memref::ReshapeOpVerifyErr::ElementTypeMismatch)
    );
    assert_eq!(
        verify(v, source, vec![], open),
        Err(memref::ReshapeOpVerifyErr::DynDimCountMismatch {
            expected: 1,
            got: 0
        })
    );
    assert_eq!(
        verify(v, source, vec![element], open),
        Err(memref::ReshapeOpVerifyErr::DynDimNotIndex)
    );
    assert_eq!(
        verify(v, source, vec![], short),
        Err(memref::ReshapeOpVerifyErr::ElementCountMismatch {
            src_count: 12,
            result_count: 9
        })
    );
}

#[test]
fn a_generated_tensor_has_a_size_for_each_dynamic_dimension() {
    let v = &mut Values::new();
    let ty = v.tensor_ty(&[Dynamic, Static(3)]);
    let size = v.index();
    let op = tensor::GenerateOp::new(&mut v.ctx, vec![size], ty, 50, |args: Vec<Value>| args[1]);
    assert_eq!(op.verify(&v.ctx), Ok(()));
    assert_eq!(op.dynamic_dimensions(), [size]);
    assert_eq!(*op.get_generated_shape(&v.ctx), [Dynamic, Static(3)]);
    let op = tensor::GenerateOp::new(&mut v.ctx, vec![], ty, 50, |args: Vec<Value>| args[0]);
    assert_eq!(
        op.verify(&v.ctx),
        Err(tensor::GenerateOpVerifyErr::NumOperandsMismatch {
            expected: 1,
            got: 0
        })
    );
}

#[test]
fn an_element_is_extracted_at_an_index_for_each_dimension() {
    let v = &mut Values::new();
    let t = v.tensor(&[Static(2), Dynamic]);
    let (element, i, j) = (v.element(), v.index(), v.index());
    let verify = |v: &Values, ty, at| tensor::ExtractOp::new(ty, t, at).verify(&v.ctx);
    assert_eq!(verify(v, v.elem, vec![i, j]), Ok(()));
    assert_eq!(
        verify(v, v.index, vec![i, j]),
        Err(tensor::ExtractOpVerifyErr::ResultTypeMismatch)
    );
    assert_eq!(
        verify(v, v.elem, vec![i]),
        Err(tensor::ExtractOpVerifyErr::NumOperandsMismatch {
            expected: 2,
            got: 1
        })
    );
    assert_eq!(
        verify(v, v.elem, vec![i, element]),
        Err(tensor::ExtractOpVerifyErr::NonIndexOperand { index: 1 })
    );
}

#[test]
fn a_product_of_tensors_has_matching_shapes() {
    let v = &mut Values::new();
    let accum = v.tensor(&[Static(2), Dynamic]);
    let lhs = v.tensor(&[Static(2), Static(3)]);
    let rhs = v.tensor(&[Static(3), Static(4)]);
    let line = v.tensor(&[Static(2)]);
    let wide = v.tensor(&[Static(2), Static(5)]);
    let other = v.other_tensor(&[Static(3), Static(4)]);
    let verify =
        |v: &Values, lhs, rhs, accum| tensor::MatMulOp::new(lhs, rhs, accum).verify(&v.ctx);
    assert_eq!(verify(v, lhs, rhs, accum), Ok(()));
    assert_eq!(
        verify(v, line, rhs, accum),
        Err(tensor::MatMulOpVerifyErr::OperandNot2DTensor)
    );
    assert_eq!(
        verify(v, lhs, rhs, line),
        Err(tensor::MatMulOpVerifyErr::OperandNot2DTensor)
    );
    let mut op = tensor::MatMulOp::new(lhs, rhs, accum);
    op.op.result_types = vec![line.ty];
    assert_eq!(
        op.verify(&v.ctx),
        Err(tensor::MatMulOpVerifyErr::ResultNot2DTensor)
    );
    assert_eq!(
        verify(v, lhs, other, accum),
        Err(tensor::MatMulOpVerifyErr::ElementTypeMismatch)
    );
    assert_eq!(
        verify(v, wide, rhs, accum),
        Err(tensor::MatMulOpVerifyErr::InnerDimMismatch { lhs_k: 5, rhs_k: 3 })
    );
    assert_eq!(
        verify(v, lhs, rhs, wide),
        Err(tensor::MatMulOpVerifyErr::ResultDimMismatch {
            dim: 1,
            result_d: 5,
            expected: 4
        })
    );
}

#[test]
fn a_product_of_batches_has_matching_shapes() {
    let v = &mut Values::new();
    let accum = v.tensor(&[Static(7), Static(2), Dynamic]);
    let lhs = v.tensor(&[Static(7), Static(2), Static(3)]);
    let rhs = v.tensor(&[Dynamic, Static(3), Static(4)]);
    let flat = v.tensor(&[Static(2), Static(3)]);
    let line = v.tensor(&[Static(2)]);
    let fewer = v.tensor(&[Static(6), Static(3), Static(4)]);
    let wide = v.tensor(&[Static(7), Static(2), Static(5)]);
    let other = v.other_tensor(&[Static(7), Static(3), Static(4)]);
    let verify =
        |v: &Values, lhs, rhs, accum| tensor::BatchMatMulOp::new(lhs, rhs, accum).verify(&v.ctx);
    assert_eq!(verify(v, lhs, rhs, accum), Ok(()));
    assert_eq!(
        verify(v, line, line, line),
        Err(tensor::BatchMatMulOpVerifyErr::InvalidRank)
    );
    assert_eq!(
        verify(v, lhs, flat, accum),
        Err(tensor::BatchMatMulOpVerifyErr::OperandRankMismatch)
    );
    assert_eq!(
        verify(v, lhs, other, accum),
        Err(tensor::BatchMatMulOpVerifyErr::ElementTypeMismatch)
    );
    assert_eq!(
        verify(v, lhs, fewer, accum),
        Err(tensor::BatchMatMulOpVerifyErr::BatchDimMismatch {
            dim: 0,
            lhs_d: 7,
            rhs_d: 6
        })
    );
    assert_eq!(
        verify(v, wide, rhs, accum),
        Err(tensor::BatchMatMulOpVerifyErr::InnerDimMismatch { lhs_k: 5, rhs_k: 3 })
    );
    assert_eq!(
        verify(v, lhs, rhs, wide),
        Err(tensor::BatchMatMulOpVerifyErr::ResultDimMismatch {
            dim: 2,
            result_d: 5,
            expected: 4
        })
    );
}

#[test]
fn an_extracted_slice_has_three_parameters_for_each_dimension() {
    let v = &mut Values::new();
    let source = v.tensor(&[Static(8), Dynamic]);
    let result = v.tensor_ty(&[Static(2), Static(3)]);
    let wrong = v.tensor_ty(&[Static(2)]);
    let not_an_index = v.element();
    let verify = |v: &Values, offsets, sizes, steps, result| {
        tensor::ExtractSliceOp::new_with_result_type(source, offsets, sizes, steps, result)
            .verify(&v.ctx)
    };
    let (offsets, sizes, steps) = (numbers(&[0, 1]), numbers(&[2, 3]), numbers(&[1, 2]));
    assert_eq!(
        verify(v, offsets.clone(), sizes.clone(), steps.clone(), result),
        Ok(())
    );
    assert_eq!(
        verify(v, offsets.clone(), sizes.clone(), steps.clone(), wrong),
        Err(tensor::ExtractSliceOpVerifyErr::ResultTypeMismatch)
    );
    assert_eq!(
        verify(v, numbers(&[0]), sizes.clone(), steps.clone(), result),
        Err(tensor::ExtractSliceOpVerifyErr::NumOffsetsMismatch {
            expected: 2,
            got: 1
        })
    );
    assert_eq!(
        verify(v, offsets.clone(), numbers(&[2]), steps.clone(), result),
        Err(tensor::ExtractSliceOpVerifyErr::NumSizesMismatch {
            expected: 2,
            got: 1
        })
    );
    assert_eq!(
        verify(v, offsets.clone(), sizes.clone(), numbers(&[1]), result),
        Err(tensor::ExtractSliceOpVerifyErr::NumStepsMismatch {
            expected: 2,
            got: 1
        })
    );
    assert_eq!(
        verify(v, offsets.clone(), sizes.clone(), numbers(&[0, 1]), result),
        Err(tensor::ExtractSliceOpVerifyErr::InvalidStaticStep { dim: 0 })
    );
    let dynamic = vec![SliceParam::Static(0), SliceParam::Dynamic(not_an_index)];
    assert!(matches!(
        verify(v, dynamic, sizes.clone(), steps.clone(), result),
        Err(tensor::ExtractSliceOpVerifyErr::NonIndexOperand { .. })
    ));
    let mut op = tensor::ExtractSliceOp::new_with_result_type(
        source,
        offsets.clone(),
        sizes.clone(),
        steps.clone(),
        result,
    );
    op.op.operands.push(v.index());
    assert_eq!(
        op.verify(&v.ctx),
        Err(tensor::ExtractSliceOpVerifyErr::NumDynamicOperandsMismatch {
            expected: 0,
            got: 1
        })
    );
    let mut op =
        tensor::ExtractSliceOp::new_with_result_type(source, offsets, sizes, steps, result);
    op.slice_params = None;
    assert_eq!(
        op.verify(&v.ctx),
        Err(tensor::ExtractSliceOpVerifyErr::MissingSliceParamsAttr)
    );
}

#[test]
fn an_inserted_slice_fits() {
    let v = &mut Values::new();
    let source = v.tensor(&[Static(2), Dynamic]);
    let destination = v.tensor(&[Static(8), Static(9)]);
    let line = v.tensor(&[Static(2)]);
    let other = v.other_tensor(&[Static(2), Static(3)]);
    let wrong = v.tensor_ty(&[Static(8), Static(8)]);
    let not_an_index = v.element();
    let verify = |v: &Values, source, offsets, sizes, steps| {
        tensor::InsertSliceOp::new(source, destination, offsets, sizes, steps).verify(&v.ctx)
    };
    let (offsets, sizes, steps) = (numbers(&[0, 1]), numbers(&[2, 3]), numbers(&[1, 2]));
    assert_eq!(
        verify(v, source, offsets.clone(), sizes.clone(), steps.clone()),
        Ok(())
    );
    assert_eq!(
        verify(v, line, offsets.clone(), sizes.clone(), steps.clone()),
        Err(tensor::InsertSliceOpVerifyErr::SourceDestinationRankMismatch)
    );
    assert_eq!(
        verify(v, other, offsets.clone(), sizes.clone(), steps.clone()),
        Err(tensor::InsertSliceOpVerifyErr::ElementTypeMismatch)
    );
    assert_eq!(
        verify(v, source, numbers(&[1]), sizes.clone(), steps.clone()),
        Err(tensor::InsertSliceOpVerifyErr::NumOffsetsMismatch {
            expected: 2,
            got: 1
        })
    );
    assert_eq!(
        verify(v, source, offsets.clone(), numbers(&[2]), steps.clone()),
        Err(tensor::InsertSliceOpVerifyErr::NumSizesMismatch {
            expected: 2,
            got: 1
        })
    );
    assert_eq!(
        verify(v, source, offsets.clone(), sizes.clone(), numbers(&[2])),
        Err(tensor::InsertSliceOpVerifyErr::NumStepsMismatch {
            expected: 2,
            got: 1
        })
    );
    assert_eq!(
        verify(v, source, offsets.clone(), sizes.clone(), numbers(&[2, 0])),
        Err(tensor::InsertSliceOpVerifyErr::InvalidStaticStep { dim: 1 })
    );
    assert_eq!(
        verify(v, source, offsets.clone(), numbers(&[3, 3]), steps.clone()),
        Err(tensor::InsertSliceOpVerifyErr::StaticSizeSourceMismatch {
            dim: 0,
            size: 3,
            source_dim: 2
        })
    );
    let dynamic = vec![SliceParam::Static(0), SliceParam::Dynamic(not_an_index)];
    assert!(matches!(
        verify(v, source, dynamic, sizes.clone(), steps.clone()),
        Err(tensor::InsertSliceOpVerifyErr::NonIndexOperand { .. })
    ));
    let op = tensor::InsertSliceOp::new_with_result_type(
        source,
        destination,
        offsets.clone(),
        sizes.clone(),
        steps.clone(),
        wrong,
    );
    assert_eq!(
        op.verify(&v.ctx),
        Err(tensor::InsertSliceOpVerifyErr::ResultTypeMismatch)
    );
    let mut op = tensor::InsertSliceOp::new(
        source,
        destination,
        offsets.clone(),
        sizes.clone(),
        steps.clone(),
    );
    op.op.operands.push(v.index());
    assert_eq!(
        op.verify(&v.ctx),
        Err(tensor::InsertSliceOpVerifyErr::NumDynamicOperandsMismatch {
            expected: 0,
            got: 1
        })
    );
    let mut op = tensor::InsertSliceOp::new(source, destination, offsets, sizes, steps);
    op.slice_params = None;
    assert_eq!(
        op.verify(&v.ctx),
        Err(tensor::InsertSliceOpVerifyErr::MissingSliceParamsAttr)
    );
}

#[test]
fn a_reshape_of_a_tensor_keeps_the_elements() {
    let v = &mut Values::new();
    let source = v.tensor(&[Static(2), Static(6)]);
    let (element, i) = (v.element(), v.index());
    let unranked = UnrankedTensorType::get(&mut v.ctx, v.elem);
    let unranked = v.of(unranked);
    let result = v.tensor_ty(&[Static(3), Static(4)]);
    let open = v.tensor_ty(&[Dynamic, Static(4)]);
    let short = v.tensor_ty(&[Static(3), Static(3)]);
    let other = v.other_tensor(&[Static(3), Static(4)]).ty;
    let verify = |v: &Values, source, sizes, ty| {
        tensor::ReshapeOp::new(source, sizes, ty).verify(&v.ctx)
    };
    assert_eq!(verify(v, source, vec![], result), Ok(()));
    assert_eq!(verify(v, source, vec![i], open), Ok(()));
    assert_eq!(
        verify(v, unranked, vec![], result),
        Err(tensor::ReshapeOpVerifyErr::SourceNotRankedTensor)
    );
    assert_eq!(
        verify(v, source, vec![], other),
        Err(tensor::ReshapeOpVerifyErr::ElementTypeMismatch)
    );
    assert_eq!(
        verify(v, source, vec![i, i], open),
        Err(tensor::ReshapeOpVerifyErr::DynDimCountMismatch {
            expected: 1,
            got: 2
        })
    );
    assert_eq!(
        verify(v, source, vec![element], open),
        Err(tensor::ReshapeOpVerifyErr::DynDimNotIndex)
    );
    assert_eq!(
        verify(v, source, vec![], short),
        Err(tensor::ReshapeOpVerifyErr::ElementCountMismatch {
            src_count: 12,
            result_count: 9
        })
    );
}

#[test]
fn memory_operations_know_their_manager() {
    let v = &mut Values::new();
    let ty = v.memref_ty(&[Dynamic]);
    let (size, memref) = (v.index(), v.memref(&[Dynamic]));
    let mut tmm = TrackedTMM::new();
    let op = tmm.create_memref_alloc(0x1234, ty, vec![size]).unwrap();
    assert_eq!(op.memref_tmm_ptr_alloc, Some(ConstPointerAttr(0x1234)));
    assert_eq!(op.get_dynamic_dimensions(), [size]);
    assert!(op.verify(&v.ctx).is_ok());
    let op = tmm.create_memref_dealloc(0x1234, memref).unwrap();
    assert_eq!(op.memref_tmm_ptr_dealloc, Some(ConstPointerAttr(0x1234)));
    assert_eq!(op.get_memref(), memref);
    assert!(op.verify().is_ok());

    let at = Some(StaticInfo::Pointer(ConstPointerAttr(5)));
    assert!(TrackedAllocOp::try_new(at, ty, vec![size]).is_ok());
    assert!(TrackedDeallocOp::try_new(at, memref).is_ok());
    for info in [None, Some(StaticInfo::Other)] {
        assert!(matches!(
            TrackedAllocOp::try_new(info, ty, vec![size]),
            Err(TrackedMemoryManagerErr::ExpectedConstPointerAttr)
        ));
        assert!(matches!(
            TrackedDeallocOp::try_new(info, memref),
            Err(TrackedMemoryManagerErr::ExpectedConstPointerAttr)
        ));
        assert!(memref::AllocOp::try_new(info, ty, vec![size]).is_ok());
        assert!(memref::DeallocOp::try_new(info, memref).is_ok());
    }
}

#[test]
fn memory_operations_of_a_manager_are_checked() {
    let v = &mut Values::new();
    let ty = v.memref_ty(&[Dynamic]);
    let (size, memref) = (v.index(), v.memref(&[Dynamic]));
    let at = ConstPointerAttr(0x1234);
    let mut op = TrackedAllocOp::new_with_tmm(ty, vec![size, size], at);
    assert!(matches!(
        op.verify(&v.ctx),
        Err(TrackedMemoryManagerErr::AllocNumDynamicDimsMismatch {
            expected: 1,
            got: 2
        })
    ));
    op.memref_tmm_ptr_alloc = None;
    assert!(matches!(
        op.verify(&v.ctx),
        Err(TrackedMemoryManagerErr::MissingSelfPointerAttr)
    ));
    let mut op = TrackedDeallocOp::new_with_tmm(memref, at);
    assert!(matches!(
        op.rewrite(false),
        Err(TrackedMemoryManagerErr::NearestSymbolTableNotFound)
    ));
    op.memref_tmm_ptr_dealloc = None;
    assert!(matches!(
        op.verify(),
        Err(TrackedMemoryManagerErr::MissingSelfPointerAttr)
    ));
    let op = TrackedAllocOp::new_with_tmm(ty, vec![size], at);
    assert!(matches!(
        op.rewrite(&v.ctx, false),
        Err(TrackedMemoryManagerErr::NearestSymbolTableNotFound)
    ));
}

#[test]
fn an_operation_without_its_operands_is_not_complete() {
    let v = &mut Values::new();
    let source = v.tensor(&[Static(4)]);
    let i = v.index();
    let result = v.tensor_ty(&[Static(2)]);
    let mut op = tensor::ExtractSliceOp::new_with_result_type(
        source,
        vec![SliceParam::Dynamic(i)],
        vec![SliceParam::Static(2)],
        vec![SliceParam::Static(1)],
        result,
    );
    assert!(op.is_complete());
    op.op.operands.pop();
    assert!(!op.is_complete());
    op.op.operands.push(i);
    op.slice_params = None;
    assert!(!op.is_complete());
    let mut op = tensor::ExtractOp::new(v.elem, source, vec![i]);
    assert!(op.is_complete());
    op.op.operands.clear();
    assert!(!op.is_complete());
}
