//! What operations and types are replaced by.

use pliron_tensor::ir::{
    Context, ForOp, FuncOp, IntegerType, Operation, PointerLoadOp, Signedness, TypeHandle, TypeObj,
    Value,
};
use pliron_tensor::memref::attributes::DenseElementsAttr;
use pliron_tensor::memref::conversions::{
    lower_func_op_to_llvm, select_arith, to_llvm_type, AllocOpRewriteError, CopyOpConversionErr,
    DeallocOpRewriteError, ElementWiseBinaryMemrefOpConversionErr, LoweredOp,
    MemrefMatMulOpConversionErr, MemrefToCF,
};
use pliron_tensor::memref::ops::{AddOp, AllocOp, CopyOp, DeallocOp, MatMulOp};
use pliron_tensor::memref::slices::SliceParam;
use pliron_tensor::memref::type_interfaces::Dimension::{Dynamic, Static};
use pliron_tensor::memref::types::RankedMemrefType;
use pliron_tensor::plan::{
    ArithOp, BodyStepOf, Callee, ElementWiseKind, Ref, ReplacementOf, StepOf,
};
use pliron_tensor::tensor::bufferize::{
    bufferize, is_value_writable, Alias, AliasErr, AliasKind, BufferRelation,
    BufferizableOpInterface, BufferizationInfo, BufferizerErr, DefiningEntity, Program,
    ProgramBlock, ProgramOp, Use, ValueDef,
};
use pliron_tensor::tensor::constants::{
    constant_global_name, unique_name, ConstantErr, ConstantOp, ConstantOpConversionErr,
};
use pliron_tensor::tensor::op_interfaces::{bufferization_info, verify, Rewrite};
use pliron_tensor::tensor::ops::{BatchMatMulOp, ExtractSliceOp, InsertSliceOp, ReshapeOp};
use pliron_tensor::tensor::tracked_tmm::{declare_tracked_dealloc, declare_tracked_malloc};
use pliron_tensor::tensor::types::RankedTensorType;

fn integer(ctx: &mut Context, signedness: Signedness) -> TypeHandle {
    ctx.intern(TypeObj::Integer(IntegerType {
        width: 64,
        signedness,
    }))
}

fn chars(text: &str) -> Vec<char> {
    text.chars().collect()
}

#[test]
fn arithmetic_follows_the_element_type() {
    let ctx = &mut Context::new();
    let float = ctx.intern(TypeObj::FP64);
    let signed = integer(ctx, Signedness::Signed);
    let unsigned = integer(ctx, Signedness::Unsigned);
    let signless = integer(ctx, Signedness::Signless);
    for (kind, of_floats, of_signed, of_unsigned) in [
        (ElementWiseKind::Add, ArithOp::FAdd, ArithOp::Add, ArithOp::Add),
        (ElementWiseKind::Sub, ArithOp::FSub, ArithOp::Sub, ArithOp::Sub),
        (ElementWiseKind::Mul, ArithOp::FMul, ArithOp::Mul, ArithOp::Mul),
        (ElementWiseKind::Div, ArithOp::FDiv, ArithOp::SDiv, ArithOp::UDiv),
    ] {
        assert_eq!(select_arith(kind, ctx, float), of_floats);
        assert_eq!(select_arith(kind, ctx, signed), of_signed);
        assert_eq!(select_arith(kind, ctx, unsigned), of_unsigned);
    }
    let divided_as = select_arith(ElementWiseKind::Div, ctx, signless);
    assert!(matches!(divided_as, ArithOp::SDiv | ArithOp::UDiv));
}

#[test]
fn an_allocation_calls_malloc() {
    let ctx = &mut Context::new();
    let elem = ctx.intern(TypeObj::FP64);
    let index = ctx.intern(TypeObj::Index);
    let ty = RankedMemrefType::get(ctx, elem, vec![Dynamic, Static(4)]);
    let size = Value { id: 0, ty: index };
    let plan = AllocOp::new(ty, vec![size]).rewrite(ctx, true).unwrap();
    assert!(plan.steps.iter().any(|step| matches!(
        step,
        StepOf::Call {
            callee: Callee::Malloc,
            ..
        }
    )));
    assert_eq!(
        plan.steps[0],
        StepOf::Layout {
            ty,
            dynamic: vec![Ref::Value(size)]
        }
    );
    assert!(matches!(
        AllocOp::new(ty, vec![size]).rewrite(ctx, false),
        Err(AllocOpRewriteError::NearestSymbolTableNotFound)
    ));
    let memref = Value { id: 1, ty };
    let plan = DeallocOp::new(memref).rewrite(true).unwrap();
    assert!(plan.steps.iter().any(|step| matches!(
        step,
        StepOf::Call {
            callee: Callee::Free,
            ..
        }
    )));
    assert!(matches!(
        DeallocOp::new(memref).rewrite(false),
        Err(DeallocOpRewriteError::NearestSymbolTableNotFound)
    ));
}

#[test]
fn operations_on_memrefs_need_their_element_type() {
    let ctx = &mut Context::new();
    let elem = ctx.intern(TypeObj::FP64);
    let ty = RankedMemrefType::get(ctx, elem, vec![Static(2), Static(2)]);
    let m = Value { id: 0, ty };
    assert!(matches!(
        AddOp::new(m, m, m).rewrite(ctx, None),
        Err(ElementWiseBinaryMemrefOpConversionErr::ExpectedMemrefTypeNotFound)
    ));
    assert!(matches!(
        MatMulOp::new(m, m, m).rewrite(ctx, None),
        Err(MemrefMatMulOpConversionErr::ExpectedMemrefTypeNotFound)
    ));
    assert!(matches!(
        CopyOp::new(m, m).rewrite(ctx, None),
        Err(CopyOpConversionErr::MissingSourceOperandInfo)
    ));
}

#[test]
fn a_memref_is_lowered_to_a_descriptor() {
    let ctx = &mut Context::new();
    let elem = ctx.intern(TypeObj::FP64);
    let ty = RankedMemrefType::get(ctx, elem, vec![Dynamic, Static(2)]);
    let lowered = to_llvm_type(ty, ctx);
    let fields = match ctx.deref(lowered) {
        TypeObj::Struct(fields) => fields.clone(),
        other => panic!("{other:?}"),
    };
    assert_eq!(fields.len(), 5);
    assert!(matches!(ctx.deref(fields[0]), TypeObj::Pointer));
    assert_eq!(fields[0], fields[1]);
    let word = integer(ctx, Signedness::Signless);
    assert_eq!(fields[2], word);
    assert!(matches!(
        ctx.deref(fields[3]),
        TypeObj::Array { element_type, length: 2 } if *element_type == word
    ));
    assert_eq!(fields[3], fields[4]);
    assert_eq!(to_llvm_type(elem, ctx), elem);

    assert!(MemrefToCF.can_convert_type(ctx, ty));
    assert!(!MemrefToCF.can_convert_type(ctx, elem));
    assert_eq!(MemrefToCF.convert_type(ctx, ty), lowered);
}

#[test]
fn functions_and_loads_are_lowered() {
    let ctx = &mut Context::new();
    let elem = ctx.intern(TypeObj::FP64);
    let pointer = ctx.intern(TypeObj::Pointer);
    let ty = RankedMemrefType::get(ctx, elem, vec![Dynamic]);
    let signature = ctx.intern(TypeObj::Function {
        result: ty,
        arguments: vec![elem, ty],
    });
    let func = FuncOp {
        ty: signature,
        arguments: vec![elem, ty],
    };
    let descriptor = to_llvm_type(ty, ctx);
    let expected = FuncOp {
        ty: ctx.intern(TypeObj::Function {
            result: descriptor,
            arguments: vec![elem, descriptor],
        }),
        arguments: vec![elem, descriptor],
    };
    assert_eq!(lower_func_op_to_llvm(&func, ctx), expected);
    assert!(MemrefToCF.can_convert_op(&LoweredOp::Func(FuncOp {
        ty: signature,
        arguments: vec![]
    })));
    assert_eq!(
        MemrefToCF.rewrite(ctx, &LoweredOp::Func(func)),
        Some(Rewrite::Signature(expected))
    );

    let load = PointerLoadOp {
        op: Operation {
            operands: vec![Value { id: 0, ty: pointer }],
            result_types: vec![ty],
        },
    };
    assert_eq!(
        MemrefToCF.rewrite(ctx, &LoweredOp::PointerLoad(load)),
        Some(Rewrite::Retyped {
            arguments: vec![],
            results: vec![descriptor]
        })
    );
    assert!(MemrefToCF.can_convert_op(&LoweredOp::Memref));
    assert!(!MemrefToCF.can_convert_op(&LoweredOp::Other));
    assert_eq!(MemrefToCF.rewrite(ctx, &LoweredOp::Memref), None);
}

#[test]
fn functions_loops_and_loads_are_bufferized() {
    let ctx = &mut Context::new();
    let elem = ctx.intern(TypeObj::FP64);
    let index = ctx.intern(TypeObj::Index);
    let pointer = ctx.intern(TypeObj::Pointer);
    let tensor = RankedTensorType::get(ctx, elem, vec![Dynamic, Static(3)]);
    let memref = RankedMemrefType::get(ctx, elem, vec![Dynamic, Static(3)]);
    let signature = ctx.intern(TypeObj::Function {
        result: elem,
        arguments: vec![tensor],
    });
    let func = FuncOp {
        ty: signature,
        arguments: vec![tensor],
    };
    let bufferized = ctx.intern(TypeObj::Function {
        result: elem,
        arguments: vec![memref],
    });
    assert_eq!(
        func.rewrite(ctx),
        Rewrite::Signature(FuncOp {
            ty: bufferized,
            arguments: vec![memref]
        })
    );
    assert!(func.is_writable(DefiningEntity::Block(0)));

    let load = PointerLoadOp {
        op: Operation {
            operands: vec![Value { id: 0, ty: pointer }],
            result_types: vec![tensor],
        },
    };
    assert_eq!(
        load.rewrite(ctx),
        Rewrite::Retyped {
            arguments: vec![],
            results: vec![memref]
        }
    );

    let bound = Value { id: 1, ty: index };
    let carried = Value { id: 2, ty: memref };
    let for_op = ForOp {
        op: Operation {
            operands: vec![bound, bound, bound, carried],
            result_types: vec![tensor],
        },
        num_bounds: 3,
    };
    assert_eq!(
        for_op.rewrite(ctx),
        Rewrite::Retyped {
            arguments: vec![memref],
            results: vec![memref]
        }
    );
    let info = bufferization_info(&for_op, 9, &[40]);
    assert_eq!(info.writes, [true; 4]);
    assert_eq!(info.aliases.len(), 1);
    assert_eq!(info.aliases[0].operand, Use { op: 9, index: 3 });
    assert_eq!(info.aliases[0].result, 40);
}

fn alias(op: usize, index: usize, result: usize) -> Alias {
    Alias {
        operand: Use { op, index },
        result,
        kind: AliasKind::Must,
        relation: BufferRelation::default(),
    }
}

#[test]
fn aliases_are_found() {
    let aliases = [alias(0, 0, 5), alias(0, 0, 6), alias(0, 1, 6), alias(0, 2, 7)];
    let opd = |index| Use { op: 0, index };
    assert_eq!(
        Alias::get_aliases_for_operand(&aliases, opd(0)),
        aliases[..2]
    );
    assert!(Alias::get_aliases_for_operand(&aliases, opd(3)).is_empty());
    assert_eq!(Alias::get_aliases_for_result(&aliases, 6), aliases[1..3]);
    assert!(Alias::operand_aliases_with_multiple_results(&aliases, opd(0)));
    assert!(!Alias::operand_aliases_with_multiple_results(&aliases, opd(1)));
    assert!(Alias::operand_aliases_with_other_operands(&aliases, opd(1)));
    assert!(!Alias::operand_aliases_with_other_operands(&aliases, opd(2)));
    assert_eq!(BufferRelation::default(), BufferRelation::Unknown);
}

/// A function with the argument 0, and one operation, with the given operands and the result 1.
fn program_of(
    types: [TypeHandle; 2],
    operands: Vec<usize>,
    info: Option<BufferizationInfo>,
    live_after: Vec<usize>,
) -> Program {
    Program {
        values: vec![
            ValueDef {
                ty: types[0],
                definer: DefiningEntity::Block(0),
                writable: true,
            },
            ValueDef {
                ty: types[1],
                definer: DefiningEntity::Op(1),
                writable: true,
            },
        ],
        ops: vec![
            ProgramOp {
                operands: vec![],
                successors: vec![],
                is_branch: false,
                bufferization: Some(BufferizationInfo {
                    aliases: vec![],
                    writes: vec![],
                }),
                live_after: vec![],
            },
            ProgramOp {
                operands,
                successors: vec![],
                is_branch: false,
                bufferization: info,
                live_after,
            },
        ],
        blocks: vec![ProgramBlock {
            parent_op: Some(0),
            arguments: vec![0],
            live_in: vec![],
        }],
    }
}

#[test]
fn declared_aliases_are_checked() {
    let ctx = &mut Context::new();
    let elem = ctx.intern(TypeObj::FP64);
    let index = ctx.intern(TypeObj::Index);
    let tensor = RankedTensorType::get(ctx, elem, vec![Dynamic]);
    let value = |id, ty| Value { id, ty };
    let slice = ExtractSliceOp::new_with_result_type(
        value(0, tensor),
        vec![SliceParam::Static(0)],
        vec![SliceParam::Static(1)],
        vec![SliceParam::Static(1)],
        tensor,
    );
    let program = program_of([tensor, tensor], vec![0], None, vec![]);
    assert_eq!(verify(&slice, 1, &[1], &program, ctx), Ok(()));
    // The result is not one of this operation.
    assert_eq!(
        verify(&slice, 1, &[0], &program, ctx),
        Err(AliasErr::InvalidAlias)
    );
    assert_eq!(alias(1, 0, 1).verify(&program), Ok(()));
    assert_eq!(
        alias(0, 0, 1).verify(&program),
        Err(AliasErr::InvalidAlias)
    );
    assert_eq!(
        alias(0, 0, 0).verify(&program),
        Err(AliasErr::InvalidAlias)
    );
    // The operand has no shape.
    let program = program_of([index, tensor], vec![0], None, vec![]);
    assert_eq!(
        verify(&slice, 1, &[1], &program, ctx),
        Err(AliasErr::InvalidOperandType)
    );
}

#[test]
fn a_value_is_written_in_place_unless_it_is_seen_later() {
    let ctx = &mut Context::new();
    let elem = ctx.intern(TypeObj::FP64);
    let tensor = RankedTensorType::get(ctx, elem, vec![Static(4)]);
    let argument = Value { id: 0, ty: tensor };
    let insert = InsertSliceOp::new(
        argument,
        argument,
        vec![SliceParam::Static(0)],
        vec![SliceParam::Static(4)],
        vec![SliceParam::Static(1)],
    );
    for (live_after, copied) in [(vec![1], false), (vec![0, 1], true)] {
        let info = bufferization_info(&insert, 1, &[1]);
        assert_eq!(info.writes, [false, true]);
        let program = program_of([tensor, tensor], vec![0, 0], Some(info), live_after);
        assert!(is_value_writable(&program, ctx, 0));
        let bufferizer = bufferize(&program, ctx);
        let source_is_read = bufferizer.out_of_place_operands.contains(&(1, 1));
        assert!(source_is_read || !copied);
        assert!(bufferizer.can_convert_op(&program, 1));
        assert!(bufferizer.can_convert_type(ctx, tensor));
        assert!(!bufferizer.can_convert_type(ctx, elem));
    }
}

#[test]
fn only_memrefs_are_copied() {
    let ctx = &mut Context::new();
    let elem = ctx.intern(TypeObj::FP64);
    let tensor = RankedTensorType::get(ctx, elem, vec![Static(4)]);
    let argument = Value { id: 0, ty: tensor };
    let insert = InsertSliceOp::new(
        argument,
        argument,
        vec![SliceParam::Static(0)],
        vec![SliceParam::Static(4)],
        vec![SliceParam::Static(1)],
    );
    let info = bufferization_info(&insert, 1, &[1]);
    let program = program_of([tensor, tensor], vec![0, 0], Some(info), vec![0, 1]);
    let bufferizer = bufferize(&program, ctx);
    assert!(matches!(
        bufferizer.rewrite(ctx, 1, &vec![argument, argument], &vec![None, None]),
        Err(BufferizerErr::ExpectedRankedMemref { operand: 1 })
    ));
    let memref = bufferizer.convert_type(ctx, tensor);
    let bufferized = Value { id: 0, ty: memref };
    let copies = bufferizer
        .rewrite(ctx, 1, &vec![bufferized, bufferized], &vec![None, None])
        .unwrap();
    assert_eq!(
        copies.steps,
        [
            StepOf::Alloc {
                ty: memref,
                dynamic: vec![]
            },
            StepOf::Copy {
                destination: Ref::Step(0),
                source: Ref::Value(bufferized)
            },
        ]
    );
    assert_eq!(copies.operands, [Ref::Value(bufferized), Ref::Step(0)]);
}

#[test]
fn a_reshape_is_a_reshape_of_the_memref() {
    let ctx = &mut Context::new();
    let elem = ctx.intern(TypeObj::FP64);
    let memref = RankedMemrefType::get(ctx, elem, vec![Static(6)]);
    let tensor = RankedTensorType::get(ctx, elem, vec![Static(2), Static(3)]);
    let result = RankedMemrefType::get(ctx, elem, vec![Static(2), Static(3)]);
    let source = Value { id: 0, ty: memref };
    let op = ReshapeOp::new(source, vec![], tensor);
    let plan = match op.rewrite(ctx) {
        Rewrite::Replaced(plan) => plan,
        other => panic!("{other:?}"),
    };
    assert_eq!(
        plan.steps,
        [StepOf::Reshape {
            source: Ref::Value(source),
            dynamic: vec![],
            ty: result
        }]
    );
    assert_eq!(plan.replacement, ReplacementOf::Step(0));
}

#[test]
fn names_of_globals_are_not_taken() {
    let hint = chars("g");
    let symbols = vec![chars("g_0"), chars("g_1"), chars("g_3"), chars("h_2")];
    let mut counter = 0;
    assert_eq!(unique_name(&symbols, &hint, &mut counter), chars("g_2"));
    assert_eq!(counter, 3);
    assert_eq!(unique_name(&symbols, &hint, &mut counter), chars("g_4"));
    assert_eq!(counter, 5);

    let ctx = &mut Context::new();
    let half = ctx.intern(TypeObj::FP16);
    let ty = RankedTensorType::get(ctx, half, vec![Static(2), Static(10)]);
    let value = DenseElementsAttr::new_zeroed(ctx, ty).unwrap();
    let name: String = constant_global_name(ctx, &value).iter().collect();
    assert_eq!(name, "__constant_2x10xfp16_2B");

    let op = ConstantOp {
        value,
        result_type: ty,
    };
    let mut counter = 4;
    assert!(matches!(
        op.rewrite(ctx, None, &mut counter),
        Err(ConstantErr::Conversion(
            ConstantOpConversionErr::NearestSymbolTableNotFound
        ))
    ));
    assert_eq!(counter, 4);
}

#[test]
fn functions_that_keep_records_are_declared() {
    let ctx = &mut Context::new();
    let malloc = declare_tracked_malloc(ctx);
    let dealloc = declare_tracked_dealloc(ctx);
    assert_eq!(malloc.name, chars("tracked_malloc"));
    assert_eq!(dealloc.name, chars("tracked_dealloc"));
    let pointer = ctx.intern(TypeObj::Pointer);
    let void = ctx.intern(TypeObj::Void);
    let word = integer(ctx, Signedness::Signless);
    let expected = ctx.intern(TypeObj::Function {
        result: pointer,
        arguments: vec![pointer, word],
    });
    assert_eq!(malloc.ty, expected);
    let expected = ctx.intern(TypeObj::Function {
        result: void,
        arguments: vec![pointer, pointer],
    });
    assert_eq!(dealloc.ty, expected);
}

#[test]
fn matrices_of_a_batch_have_the_inner_dimension_of_the_left_factor() {
    let ctx = &mut Context::new();
    let elem = ctx.intern(TypeObj::FP64);
    for (lhs_inner, rhs_inner) in [
        (Static(4), Static(4)),
        (Dynamic, Dynamic),
        (Static(4), Dynamic),
        (Dynamic, Static(4)),
    ] {
        let mut memref = |id: usize, rows, columns| Value {
            id,
            ty: RankedMemrefType::get(ctx, elem, vec![Static(5), rows, columns]),
        };
        let lhs = memref(0, Static(2), lhs_inner);
        let rhs = memref(1, rhs_inner, Static(3));
        let accum = memref(2, Static(2), Static(3));
        let rewritten = BatchMatMulOp::new(lhs, rhs, accum).rewrite(ctx);
        let lhs_ty = RankedMemrefType::get(ctx, elem, vec![Static(2), lhs_inner]);
        let rhs_ty = RankedMemrefType::get(ctx, elem, vec![lhs_inner, Static(3)]);
        let accum_ty = RankedMemrefType::get(ctx, elem, vec![Static(2), Static(3)]);
        let size = |inner, step| match inner {
            Dynamic => vec![Ref::Outer(step)],
            Static(_) => vec![],
        };
        let Rewrite::Replaced(plan) = rewritten else {
            panic!("the operation is replaced");
        };
        let StepOf::Loop { body, .. } = plan.steps.last().unwrap() else {
            panic!("the last step is a loop");
        };
        let reshape = |source, dynamic, ty| BodyStepOf::Reshape {
            source: Ref::Step(source),
            dynamic,
            ty,
        };
        assert_eq!(body[3], reshape(0, size(lhs_inner, 2), lhs_ty));
        assert_eq!(body[4], reshape(1, size(rhs_inner, 4), rhs_ty));
        assert_eq!(body[5], reshape(2, vec![], accum_ty));
    }
}
