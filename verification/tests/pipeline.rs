//! Runs what operations are replaced by, down to loads and stores, on a small machine.

use pliron_tensor::ir::{
    Context, ForOp, IntegerType, Operation, Signedness, TypeHandle, TypeObj, Value,
};
use pliron_tensor::memref::attributes::{ConstPointerAttr, DenseElementsAttr};
use pliron_tensor::memref::conversions::DescriptorTypes;
use pliron_tensor::memref::ops::{
    AddOp as MemrefAddOp, AllocOp, CopyOp, DimOp, DivOp as MemrefDivOp,
    GenerateOp as MemrefGenerateOp, LoadOp, MatMulOp as MemrefMatMulOp, MulOp as MemrefMulOp,
    ReshapeOp as MemrefReshapeOp, StoreOp, SubOp as MemrefSubOp, SubviewOp,
};
use pliron_tensor::memref::slices::SliceParam;
use pliron_tensor::memref::type_interfaces::Dimension;
use pliron_tensor::memref::type_interfaces::Dimension::{Dynamic, Static};
use pliron_tensor::memref::types::RankedMemrefType;
use pliron_tensor::plan::{
    ArithOp, BodyStep, BodyStepOf, Callee, ElementWiseKind, Param, Plan, Ref, ReplacementOf, Step,
    StepOf,
};
use pliron_tensor::tensor::bufferize::{
    bufferize, BufferizableOpInterface, BufferizationInfo, Bufferizer, DefiningEntity, Program,
    ProgramBlock, ProgramOp, Successor, ValueDef,
};
use pliron_tensor::tensor::constants::ConstantOp;
use pliron_tensor::tensor::op_interfaces::{bufferization_info, Rewrite};
use pliron_tensor::tensor::ops::{
    AddOp, BatchMatMulOp, DivOp, ExtractOp, ExtractSliceOp, GenerateOp, InsertSliceOp, MatMulOp,
    MulOp, ReshapeOp, SubOp,
};
use pliron_tensor::tensor::tracked_tmm::{
    tracked_dealloc, tracked_malloc, TrackedAllocOp, TrackedDeallocOp, TrackedTMM,
};
use pliron_tensor::tensor::types::RankedTensorType;
use std::collections::HashMap;
use std::rc::Rc;

#[derive(Clone, Debug, PartialEq)]
struct Desc {
    allocated: usize,
    aligned: usize,
    offset: usize,
    sizes: Vec<usize>,
    strides: Vec<usize>,
}

#[derive(Clone, Debug, PartialEq)]
enum Rt {
    Unit,
    Int(usize),
    Ptr(usize),
    Elem(u64),
    Desc(Desc),
}

impl Rt {
    fn number(&self) -> usize {
        match self {
            Rt::Int(n) => *n,
            _ => panic!("{self:?} is not an integer"),
        }
    }

    fn ptr(&self) -> usize {
        match self {
            Rt::Ptr(p) => *p,
            _ => panic!("{self:?} is not an address"),
        }
    }

    fn elem(&self) -> u64 {
        match self {
            Rt::Elem(v) => *v,
            _ => panic!("{self:?} is not an element"),
        }
    }

    fn desc(&self) -> &Desc {
        match self {
            Rt::Desc(desc) => desc,
            _ => panic!("{self:?} is not a descriptor"),
        }
    }
}

fn row_major(sizes: &[usize]) -> Vec<usize> {
    let mut strides = vec![1; sizes.len()];
    for d in (1..sizes.len()).rev() {
        strides[d - 1] = strides[d] * sizes[d];
    }
    strides
}

fn indices(sizes: &[usize]) -> Vec<Vec<usize>> {
    let mut all = vec![vec![]];
    for &size in sizes {
        all = all
            .iter()
            .flat_map(|index| {
                (0..size).map(move |i| {
                    let mut next = index.clone();
                    next.push(i);
                    next
                })
            })
            .collect();
    }
    all
}

/// A machine whose memory holds one element per address.
struct Vm {
    ctx: Context,
    elem: TypeHandle,
    index: TypeHandle,
    memory: Vec<u64>,
    values: HashMap<usize, Rt>,
    next_value: usize,
    region: Rc<dyn Fn(&[usize]) -> u64>,
    mallocs: usize,
    tmm: Option<TrackedTMM>,
}

const TMM_ADDRESS: usize = 0x7000;

impl Vm {
    fn new(element: TypeObj) -> Self {
        let mut ctx = Context::new();
        let elem = ctx.intern(element);
        let index = ctx.intern(TypeObj::Index);
        Vm {
            ctx,
            elem,
            index,
            memory: vec![0; 16],
            values: HashMap::new(),
            next_value: 1000,
            region: Rc::new(|_| 0),
            mallocs: 0,
            tmm: None,
        }
    }

    fn of_integers() -> Self {
        Self::new(TypeObj::Integer(IntegerType {
            width: 64,
            signedness: Signedness::Signless,
        }))
    }

    fn of_floats() -> Self {
        Self::new(TypeObj::FP64)
    }

    fn tensor(&mut self, shape: &[Dimension]) -> TypeHandle {
        RankedTensorType::get(&mut self.ctx, self.elem, shape.to_vec())
    }

    fn memref(&mut self, shape: &[Dimension]) -> TypeHandle {
        RankedMemrefType::get(&mut self.ctx, self.elem, shape.to_vec())
    }

    /// Puts elements into memory.
    fn store(&mut self, sizes: &[usize], data: &[u64]) -> Desc {
        let at = self.memory.len();
        self.memory.extend_from_slice(data);
        Desc {
            allocated: at,
            aligned: at,
            offset: 0,
            sizes: sizes.to_vec(),
            strides: row_major(sizes),
        }
    }

    fn load(&self, desc: &Desc) -> Vec<u64> {
        indices(&desc.sizes)
            .iter()
            .map(|index| self.memory[self.address(desc, index)])
            .collect()
    }

    fn address(&self, desc: &Desc, index: &[usize]) -> usize {
        assert_eq!(index.len(), desc.sizes.len());
        for (i, size) in index.iter().zip(&desc.sizes) {
            assert!(i < size, "index {index:?} of {desc:?}");
        }
        let linear: usize = index.iter().zip(&desc.strides).map(|(i, s)| i * s).sum();
        desc.aligned + desc.offset + linear
    }

    fn bind(&mut self, rt: Rt) -> Value {
        let ty = match &rt {
            Rt::Desc(desc) => {
                let shape = vec![Dynamic; desc.sizes.len()];
                self.memref(&shape)
            }
            Rt::Int(_) => self.index,
            _ => self.elem,
        };
        self.bind_as(rt, ty)
    }

    fn bind_as(&mut self, rt: Rt, ty: TypeHandle) -> Value {
        let id = self.next_value;
        self.next_value += 1;
        self.values.insert(id, rt);
        Value { id, ty }
    }

    fn get(&self, results: &[Rt], r: &Ref) -> Rt {
        match *r {
            Ref::Value(value) => self.values[&value.id].clone(),
            Ref::Step(n) | Ref::Outer(n) => results[n].clone(),
            Ref::Induction(_) => panic!("not in a loop"),
            Ref::Size { step, dim } => Rt::Int(results[step].desc().sizes[dim]),
            Ref::Stride { step, dim } => Rt::Int(results[step].desc().strides[dim]),
            Ref::Count(step) => Rt::Int(results[step].desc().sizes.iter().product()),
            Ref::Allocated(step) => Rt::Ptr(results[step].desc().allocated),
            Ref::Aligned(step) => Rt::Ptr(results[step].desc().aligned),
            Ref::Offset(step) => Rt::Int(results[step].desc().offset),
        }
    }

    fn arith(op: ArithOp, a: u64, b: u64) -> u64 {
        let (x, y) = (f64::from_bits(a), f64::from_bits(b));
        match op {
            ArithOp::Add => a.wrapping_add(b),
            ArithOp::Sub => a.wrapping_sub(b),
            ArithOp::Mul => a.wrapping_mul(b),
            ArithOp::SDiv => (a as i64 / b as i64) as u64,
            ArithOp::UDiv => a / b,
            ArithOp::FAdd => (x + y).to_bits(),
            ArithOp::FSub => (x - y).to_bits(),
            ArithOp::FMul => (x * y).to_bits(),
            ArithOp::FDiv => (x / y).to_bits(),
        }
    }

    fn malloc(&mut self, n: usize) -> usize {
        let at = self.memory.len();
        self.memory.resize(at + n, 0xdead);
        self.mallocs += 1;
        at
    }

    fn params(&mut self, params: &[Param], get: impl Fn(&Vm, &Ref) -> Rt) -> Vec<SliceParam> {
        params
            .iter()
            .map(|param| match param {
                Param::Static(n) => SliceParam::Static(*n),
                Param::Dynamic(r) => {
                    let rt = get(self, r);
                    SliceParam::Dynamic(self.bind(rt))
                }
            })
            .collect()
    }

    fn run_memref_op(&mut self, plan: Plan) -> Rt {
        self.run(&plan).pop().unwrap_or(Rt::Unit)
    }

    fn subview(
        &mut self,
        source: Rt,
        offsets: Vec<SliceParam>,
        sizes: Vec<SliceParam>,
        steps: Vec<SliceParam>,
    ) -> Rt {
        let rank = source.desc().sizes.len();
        let source = self.bind(source);
        let op = SubviewOp::new(&mut self.ctx, source, offsets, sizes, steps);
        assert_eq!(op.verify(&self.ctx), Ok(()));
        let types = DescriptorTypes {
            index: self.index,
            offset: self.index,
            sizes: vec![self.index; rank],
            strides: vec![self.index; rank],
        };
        let plan = op.rewrite(&self.ctx, &types);
        self.run_memref_op(plan)
    }

    fn reshape(&mut self, source: Rt, dynamic: Vec<Rt>, ty: TypeHandle) -> Rt {
        let source = self.bind(source);
        let dynamic = dynamic.into_iter().map(|rt| self.bind(rt)).collect();
        let op = MemrefReshapeOp::new(source, dynamic, ty);
        assert_eq!(op.verify(&self.ctx), Ok(()));
        let plan = op.rewrite(&self.ctx);
        self.run_memref_op(plan)
    }

    fn mat_mul(&mut self, accum: Rt, lhs: Rt, rhs: Rt) -> Rt {
        let (accum, lhs, rhs) = (self.bind(accum), self.bind(lhs), self.bind(rhs));
        let op = MemrefMatMulOp::new(accum, lhs, rhs);
        assert_eq!(op.verify(&self.ctx), Ok(()));
        let plan = op.rewrite(&self.ctx, Some(self.elem)).unwrap();
        self.run(&plan);
        self.values[&accum.id].clone()
    }

    fn element_wise(&mut self, kind: ElementWiseKind, res: Rt, lhs: Rt, rhs: Rt) {
        let (res, lhs, rhs) = (self.bind(res), self.bind(lhs), self.bind(rhs));
        let elem = Some(self.elem);
        let plan = match kind {
            ElementWiseKind::Add => MemrefAddOp::new(res, lhs, rhs).rewrite(&self.ctx, elem),
            ElementWiseKind::Sub => MemrefSubOp::new(res, lhs, rhs).rewrite(&self.ctx, elem),
            ElementWiseKind::Mul => MemrefMulOp::new(res, lhs, rhs).rewrite(&self.ctx, elem),
            ElementWiseKind::Div => MemrefDivOp::new(res, lhs, rhs).rewrite(&self.ctx, elem),
        };
        self.run(&plan.unwrap());
    }

    fn allocate(&mut self, ty: TypeHandle, dynamic: Vec<Rt>) -> Rt {
        let dynamic: Vec<Value> = dynamic.into_iter().map(|rt| self.bind(rt)).collect();
        let plan = if self.tmm.is_some() {
            let op = TrackedAllocOp::new_with_tmm(ty, dynamic, ConstPointerAttr(TMM_ADDRESS));
            assert!(op.verify(&self.ctx).is_ok());
            op.rewrite(&self.ctx, true).unwrap()
        } else {
            let op = AllocOp::new(ty, dynamic);
            assert_eq!(op.verify(&self.ctx), Ok(()));
            op.rewrite(&self.ctx, true).unwrap()
        };
        self.run_memref_op(plan)
    }

    fn copy(&mut self, destination: Rt, source: Rt) {
        let (destination, source) = (self.bind(destination), self.bind(source));
        let op = CopyOp::new(destination, source);
        assert_eq!(op.verify(&self.ctx), Ok(()));
        let plan = op.rewrite(&self.ctx, Some(self.elem)).unwrap();
        self.run(&plan);
    }

    fn generate(&mut self, memref: Rt) {
        let memref = self.bind(memref);
        let op = MemrefGenerateOp::new(&mut self.ctx, memref, 0, |args: Vec<Value>| args[0]);
        let plan = op.rewrite(&self.ctx);
        self.run(&plan);
    }

    fn load_element(&mut self, ty: TypeHandle, memref: Rt, at: Vec<Rt>) -> Rt {
        let memref = self.bind(memref);
        let at = at.into_iter().map(|rt| self.bind(rt)).collect();
        let op = LoadOp::new(ty, memref, at);
        assert_eq!(op.verify(&self.ctx), Ok(()));
        let plan = op.rewrite();
        self.run_memref_op(plan)
    }

    fn store_element(&mut self, value: Rt, memref: Rt, at: Vec<Rt>) {
        let (value, memref) = (self.bind(value), self.bind(memref));
        let at = at.into_iter().map(|rt| self.bind(rt)).collect();
        let op = StoreOp::new(value, memref, at);
        assert_eq!(op.verify(&self.ctx), Ok(()));
        let plan = op.rewrite();
        self.run(&plan);
    }

    fn body_step(&mut self, outer: &[Rt], index: &[usize], results: &[Rt], step: &BodyStep) -> Rt {
        let get = |vm: &Vm, r: &Ref| match *r {
            Ref::Step(n) => results[n].clone(),
            Ref::Induction(dim) => Rt::Int(index[dim]),
            _ => vm.get(outer, r),
        };
        let all = |vm: &Vm, refs: &[Ref]| refs.iter().map(|r| get(vm, r)).collect::<Vec<_>>();
        match step {
            BodyStepOf::LoadElement {
                ty,
                memref,
                indices,
            } => {
                let (memref, at) = (get(self, memref), all(self, indices));
                self.load_element(*ty, memref, at)
            }
            BodyStepOf::StoreElement {
                value,
                memref,
                indices,
            } => {
                let (value, memref, at) =
                    (get(self, value), get(self, memref), all(self, indices));
                self.store_element(value, memref, at);
                Rt::Unit
            }
            BodyStepOf::Arith { op, lhs, rhs } => Rt::Elem(Self::arith(
                *op,
                get(self, lhs).elem(),
                get(self, rhs).elem(),
            )),
            BodyStepOf::Region => {
                let region = self.region.clone();
                Rt::Elem(region(index))
            }
            BodyStepOf::Subview {
                source,
                offsets,
                sizes,
                steps,
            } => {
                let source = get(self, source);
                let offsets = self.params(offsets, get);
                let sizes = self.params(sizes, get);
                let steps = self.params(steps, get);
                self.subview(source, offsets, sizes, steps)
            }
            BodyStepOf::Reshape {
                source,
                dynamic,
                ty,
            } => {
                let (source, dynamic) = (get(self, source), all(self, dynamic));
                self.reshape(source, dynamic, *ty)
            }
            BodyStepOf::MatMul { accum, lhs, rhs } => {
                let (accum, lhs, rhs) = (get(self, accum), get(self, lhs), get(self, rhs));
                self.mat_mul(accum, lhs, rhs)
            }
        }
    }

    fn step(&mut self, results: &[Rt], step: &Step) -> Rt {
        let get = |vm: &Vm, r: &Ref| vm.get(results, r);
        let all = |vm: &Vm, refs: &[Ref]| refs.iter().map(|r| get(vm, r)).collect::<Vec<_>>();
        let ints =
            |vm: &Vm, refs: &[Ref]| refs.iter().map(|r| get(vm, r).number()).collect::<Vec<_>>();
        match step {
            StepOf::IndexConstant(n) => Rt::Int(*n),
            StepOf::IntegerConstant(n) => Rt::Int(*n as usize),
            StepOf::IntToPtr(value) => Rt::Ptr(get(self, value).number()),
            StepOf::IndexToInteger { value, .. } => get(self, value),
            StepOf::IntegerToIndex { value, .. } => get(self, value),
            StepOf::Add(a, b) => Rt::Int(get(self, a).number() + get(self, b).number()),
            StepOf::Mul(a, b) => Rt::Int(get(self, a).number() * get(self, b).number()),
            StepOf::TypeSize(_) => Rt::Int(1),
            StepOf::UnpackDescriptor(memref) | StepOf::UnpackSizes(memref) => get(self, memref),
            StepOf::UnpackSize { memref, dim } => Rt::Int(get(self, memref).desc().sizes[*dim]),
            StepOf::UnpackSizeAt { memref, at } => {
                Rt::Int(get(self, memref).desc().sizes[get(self, at).number()])
            }
            StepOf::UnpackAllocated(memref) => Rt::Ptr(get(self, memref).desc().allocated),
            StepOf::UnpackAligned(memref) => Rt::Ptr(get(self, memref).desc().aligned),
            StepOf::UnpackOffset(memref) => Rt::Int(get(self, memref).desc().offset),
            StepOf::Layout { ty, dynamic } => {
                let mut dynamic = ints(self, dynamic).into_iter();
                let shape = self.ctx.ranked_memref(*ty).unwrap().shape.clone();
                let sizes: Vec<usize> = shape
                    .into_iter()
                    .map(|dim| match dim {
                        Static(size) => size,
                        Dynamic => dynamic.next().unwrap(),
                    })
                    .collect();
                Rt::Desc(Desc {
                    allocated: 0,
                    aligned: 0,
                    offset: 0,
                    strides: row_major(&sizes),
                    sizes,
                })
            }
            StepOf::PackDescriptor {
                allocated,
                aligned,
                offset,
                extents,
                strides,
                ..
            } => Rt::Desc(Desc {
                allocated: get(self, allocated).ptr(),
                aligned: get(self, aligned).ptr(),
                offset: get(self, offset).number(),
                sizes: ints(self, extents),
                strides: ints(self, strides),
            }),
            StepOf::ElementPtr {
                memref, indices, ..
            } => {
                let at = ints(self, indices);
                Rt::Ptr(self.address(get(self, memref).desc(), &at))
            }
            StepOf::Load { ptr, .. } => Rt::Elem(self.memory[get(self, ptr).ptr()]),
            StepOf::Store { value, ptr } => {
                let (value, ptr) = (get(self, value).elem(), get(self, ptr).ptr());
                self.memory[ptr] = value;
                Rt::Unit
            }
            StepOf::Call { callee, arguments } => {
                let arguments = all(self, arguments);
                match callee {
                    Callee::Malloc => Rt::Ptr(self.malloc(arguments[0].number())),
                    Callee::Free => Rt::Unit,
                    Callee::TrackedMalloc => {
                        assert_eq!(arguments[0], Rt::Ptr(TMM_ADDRESS));
                        let at = self.malloc(arguments[1].number());
                        Rt::Ptr(tracked_malloc(self.tmm.as_mut().unwrap(), at))
                    }
                    Callee::TrackedDealloc => {
                        assert_eq!(arguments[0], Rt::Ptr(TMM_ADDRESS));
                        tracked_dealloc(self.tmm.as_mut().unwrap(), arguments[1].ptr());
                        Rt::Unit
                    }
                }
            }
            StepOf::Loop {
                lower,
                upper,
                step,
                body,
            } => {
                assert_eq!(get(self, lower), Rt::Int(0));
                assert_eq!(get(self, step), Rt::Int(1));
                for index in indices(&ints(self, upper)) {
                    let mut body_results = Vec::new();
                    for inner in body {
                        let rt = self.body_step(results, &index, &body_results, inner);
                        body_results.push(rt);
                    }
                }
                Rt::Unit
            }
            StepOf::Alloc { ty, dynamic } => {
                let dynamic = all(self, dynamic);
                self.allocate(*ty, dynamic)
            }
            StepOf::Dim { memref, at } => {
                let (memref, at) = (get(self, memref), get(self, at));
                let (memref, at) = (self.bind(memref), self.bind(at));
                let plan = DimOp::new(&mut self.ctx, memref, at).rewrite(None);
                self.run_memref_op(plan)
            }
            StepOf::Copy {
                destination,
                source,
            } => {
                let (destination, source) = (get(self, destination), get(self, source));
                self.copy(destination, source);
                Rt::Unit
            }
            StepOf::Subview {
                source,
                offsets,
                sizes,
                steps,
            } => {
                let source = get(self, source);
                let offsets = self.params(offsets, get);
                let sizes = self.params(sizes, get);
                let steps = self.params(steps, get);
                self.subview(source, offsets, sizes, steps)
            }
            StepOf::Reshape {
                source,
                dynamic,
                ty,
            } => {
                let (source, dynamic) = (get(self, source), all(self, dynamic));
                self.reshape(source, dynamic, *ty)
            }
            StepOf::MatMul { accum, lhs, rhs } => {
                let (accum, lhs, rhs) = (get(self, accum), get(self, lhs), get(self, rhs));
                self.mat_mul(accum, lhs, rhs)
            }
            StepOf::ElementWise {
                kind,
                res,
                lhs,
                rhs,
            } => {
                let (res, lhs, rhs) = (get(self, res), get(self, lhs), get(self, rhs));
                self.element_wise(*kind, res, lhs, rhs);
                Rt::Unit
            }
            StepOf::Generate { memref } => {
                let memref = get(self, memref);
                self.generate(memref);
                Rt::Unit
            }
            StepOf::LoadElement {
                ty,
                memref,
                indices,
            } => {
                let (memref, at) = (get(self, memref), all(self, indices));
                self.load_element(*ty, memref, at)
            }
        }
    }

    fn run_steps(&mut self, steps: &[Step]) -> Vec<Rt> {
        let mut results = Vec::new();
        for step in steps {
            let rt = self.step(&results, step);
            results.push(rt);
        }
        results
    }

    fn run(&mut self, plan: &Plan) -> Vec<Rt> {
        let results = self.run_steps(&plan.steps);
        match &plan.replacement {
            ReplacementOf::Step(n) => vec![results[*n].clone()],
            ReplacementOf::Values(refs) => refs.iter().map(|r| self.get(&results, r)).collect(),
        }
    }

    /// An element of a memref.
    fn element(&mut self, desc: &Desc, at: &[usize]) -> u64 {
        let at = at.iter().map(|i| Rt::Int(*i)).collect();
        self.load_element(self.elem, Rt::Desc(desc.clone()), at)
            .elem()
    }
}

type Info = Box<dyn Fn(&mut Context, &[Value], usize) -> BufferizationInfo>;
type Lower = Box<dyn Fn(&mut Context, &[Value]) -> Rewrite>;
type Sizes = Box<dyn Fn(&mut Context, &[Value]) -> Vec<Option<Vec<Value>>>>;

/// An operation of a program without branches.
struct Node {
    operands: Vec<usize>,
    result: usize,
    writable: bool,
    info: Info,
    sizes: Sizes,
    lower: Lower,
}

fn node<T: BufferizableOpInterface + 'static>(
    result: usize,
    operands: &[usize],
    make: impl Fn(&mut Context, &[Value]) -> T + 'static,
) -> Node {
    let make = Rc::new(make);
    let (for_sizes, for_lower) = (make.clone(), make.clone());
    Node {
        operands: operands.to_vec(),
        result,
        writable: true,
        info: Box::new(move |ctx, values, at| {
            bufferization_info(&make(ctx, values), at, &[result])
        }),
        sizes: Box::new(move |ctx, values| {
            let op = for_sizes(ctx, values);
            (0..values.len())
                .map(|i| op.get_dynamic_dimensions(i))
                .collect()
        }),
        lower: Box::new(move |ctx, values| for_lower(ctx, values).rewrite(ctx)),
    }
}

/// A program: a function whose arguments are given, and operations one after the other.
struct Function {
    types: Vec<TypeHandle>,
    arguments: usize,
    nodes: Vec<Node>,
    outputs: Vec<usize>,
}

impl Function {
    fn values(&self) -> Vec<Value> {
        (0..self.types.len())
            .map(|id| Value {
                id,
                ty: self.types[id],
            })
            .collect()
    }

    fn program(&self, ctx: &mut Context) -> Program {
        let values = self.values();
        let live_after = |k: usize| {
            let mut live: Vec<usize> = self.outputs.clone();
            for node in &self.nodes[k..] {
                live.extend_from_slice(&node.operands);
            }
            live.retain(|id| self.nodes[k..].iter().all(|node| node.result != *id));
            live
        };
        let mut ops = vec![ProgramOp {
            operands: vec![],
            successors: vec![],
            is_branch: false,
            bufferization: Some(BufferizationInfo {
                aliases: vec![],
                writes: vec![],
            }),
            live_after: vec![],
        }];
        let mut defs: Vec<ValueDef> = self
            .types
            .iter()
            .map(|ty| ValueDef {
                ty: *ty,
                definer: DefiningEntity::Block(0),
                writable: true,
            })
            .collect();
        for (k, node) in self.nodes.iter().enumerate() {
            let at = k + 1;
            let operands: Vec<Value> = node.operands.iter().map(|id| values[*id]).collect();
            ops.push(ProgramOp {
                operands: node.operands.clone(),
                successors: vec![],
                is_branch: false,
                bufferization: Some((node.info)(ctx, &operands, at)),
                live_after: live_after(k + 1),
            });
            defs[node.result].definer = DefiningEntity::Op(at);
            defs[node.result].writable = node.writable;
        }
        Program {
            values: defs,
            ops,
            blocks: vec![ProgramBlock {
                parent_op: Some(0),
                arguments: (0..self.arguments).collect(),
                live_in: vec![],
            }],
        }
    }

    /// Bufferizes the program and runs it.
    fn run(&self, vm: &mut Vm, arguments: Vec<Rt>) -> Vec<Rt> {
        let program = self.program(&mut vm.ctx);
        let bufferizer = bufferize(&program, &vm.ctx);
        for (id, rt) in arguments.into_iter().enumerate() {
            vm.values.insert(id, rt);
        }
        let values: Vec<Value> = self
            .values()
            .into_iter()
            .map(|value| Value {
                id: value.id,
                ty: bufferizer.convert_type(&mut vm.ctx, value.ty),
            })
            .collect();
        for (k, node) in self.nodes.iter().enumerate() {
            assert!(bufferizer.can_convert_op(&program, k + 1));
            run_node(vm, &bufferizer, k + 1, node, &values);
        }
        self.outputs
            .iter()
            .map(|id| vm.values[id].clone())
            .collect()
    }
}

/// Copies those of some operands that need it.
fn copy_operands(
    vm: &mut Vm,
    bufferizer: &Bufferizer,
    at: usize,
    operands: Vec<Value>,
    sizes: Vec<Option<Vec<Value>>>,
) -> Vec<Value> {
    let copies = bufferizer.rewrite(&vm.ctx, at, &operands, &sizes).unwrap();
    let results = vm.run_steps(&copies.steps);
    copies
        .operands
        .iter()
        .zip(&operands)
        .map(|(r, operand)| match r {
            Ref::Value(value) => *value,
            _ => {
                let rt = vm.get(&results, r);
                vm.bind_as(rt, operand.ty)
            }
        })
        .collect()
}

/// Runs operation number `at`. `values` are all values, with the types of their memrefs.
fn run_node(vm: &mut Vm, bufferizer: &Bufferizer, at: usize, node: &Node, values: &[Value]) {
    let operands: Vec<Value> = node.operands.iter().map(|id| values[*id]).collect();
    let sizes = (node.sizes)(&mut vm.ctx, &operands);
    let operands = copy_operands(vm, bufferizer, at, operands, sizes);
    let plan = match (node.lower)(&mut vm.ctx, &operands) {
        Rewrite::Replaced(plan) => plan,
        other => panic!("{other:?}"),
    };
    let result = vm.run(&plan).pop().unwrap();
    vm.values.insert(node.result, result);
}

fn data_of(vm: &Vm, rt: &Rt) -> Vec<u64> {
    vm.load(rt.desc())
}

fn floats(data: &[f64]) -> Vec<u64> {
    data.iter().map(|v| v.to_bits()).collect()
}

fn constants(params: &[usize]) -> Vec<SliceParam> {
    params.iter().map(|n| SliceParam::Static(*n)).collect()
}

fn extract_slice(
    result: usize,
    source: usize,
    offsets: &[usize],
    sizes: &[usize],
    steps: &[usize],
) -> Node {
    let (offsets, sizes, steps) = (constants(offsets), constants(sizes), constants(steps));
    node(result, &[source], move |ctx, values| {
        ExtractSliceOp::new_with_result_type(
            values[0],
            offsets.clone(),
            sizes.clone(),
            steps.clone(),
            result_like(ctx, values[0].ty, &sizes),
        )
    })
}

/// A tensor type with the elements of `ty` and the given sizes.
fn result_like(ctx: &mut Context, ty: TypeHandle, sizes: &[SliceParam]) -> TypeHandle {
    let element_type = match (ctx.ranked_tensor(ty), ctx.ranked_memref(ty)) {
        (Some(tensor), _) => tensor.element_type,
        (None, Some(memref)) => memref.element_type,
        (None, None) => panic!("not a ranked type"),
    };
    let shape = sizes
        .iter()
        .map(|size| match size {
            SliceParam::Static(n) => Static(*n),
            SliceParam::Dynamic(_) => Dynamic,
        })
        .collect();
    RankedTensorType::get(ctx, element_type, shape)
}

fn insert_slice(
    result: usize,
    source: usize,
    destination: usize,
    offsets: &[usize],
    sizes: &[usize],
    steps: &[usize],
) -> Node {
    let (offsets, sizes, steps) = (constants(offsets), constants(sizes), constants(steps));
    node(result, &[source, destination], move |_, values| {
        InsertSliceOp::new(
            values[0],
            values[1],
            offsets.clone(),
            sizes.clone(),
            steps.clone(),
        )
    })
}

fn sum(result: usize, lhs: usize, rhs: usize, ty: TypeHandle) -> Node {
    node(result, &[lhs, rhs], move |_, values| AddOp {
        op: Operation {
            operands: values.to_vec(),
            result_types: vec![ty],
        },
    })
}

fn difference(result: usize, lhs: usize, rhs: usize, ty: TypeHandle) -> Node {
    node(result, &[lhs, rhs], move |_, values| SubOp {
        op: Operation {
            operands: values.to_vec(),
            result_types: vec![ty],
        },
    })
}

fn products(result: usize, lhs: usize, rhs: usize, ty: TypeHandle) -> Node {
    node(result, &[lhs, rhs], move |_, values| MulOp {
        op: Operation {
            operands: values.to_vec(),
            result_types: vec![ty],
        },
    })
}

fn quotients(result: usize, lhs: usize, rhs: usize, ty: TypeHandle) -> Node {
    node(result, &[lhs, rhs], move |_, values| DivOp {
        op: Operation {
            operands: values.to_vec(),
            result_types: vec![ty],
        },
    })
}

fn mat_mul(result: usize, lhs: usize, rhs: usize, accum: usize) -> Node {
    node(result, &[lhs, rhs, accum], |_, values| {
        MatMulOp::new(values[0], values[1], values[2])
    })
}

#[test]
fn test_alloc_generate() {
    let vm = &mut Vm::of_integers();
    let ty = vm.memref(&[Dynamic, Static(16)]);
    let memref = vm.allocate(ty, vec![Rt::Int(16)]);
    assert_eq!(memref.desc().sizes, [16, 16]);
    assert_eq!(memref.desc().strides, [16, 1]);
    vm.region = Rc::new(|index| (index[0] + index[1]) as u64);
    vm.generate(memref.clone());
    for i in 0..16 {
        for j in 0..16 {
            assert_eq!(vm.element(memref.desc(), &[i, j]), (i + j) as u64);
        }
    }
}

/// The size in a dimension, with a dynamic and with a constant dimension index.
#[test]
fn test_memref_dim() {
    let vm = &mut Vm::of_integers();
    let ty = vm.memref(&[Dynamic, Dynamic]);
    let memref = vm.allocate(ty, vec![Rt::Int(16), Rt::Int(32)]);
    let memref = vm.bind(memref);
    let dynamic_index = |vm: &mut Vm, at: usize| {
        let at = vm.bind(Rt::Int(at));
        let plan = DimOp::new(&mut vm.ctx, memref, at).rewrite(None);
        vm.run(&plan)[0].number()
    };
    assert_eq!(dynamic_index(vm, 0), 16);
    assert_eq!(dynamic_index(vm, 1), 32);

    let const_index = |vm: &mut Vm, dim: usize| {
        let at = vm.bind(Rt::Int(dim));
        let plan = DimOp::new(&mut vm.ctx, memref, at).rewrite(Some(dim));
        vm.run(&plan)[0].number()
    };
    // Encoded value = dim0 * 1000 + dim1 = 16 * 1000 + 32
    assert_eq!(const_index(vm, 0) * 1000 + const_index(vm, 1), 16032);
}

/// A view, a copy, and a copy followed by a copy into a view.
#[test]
fn test_subview_copy_and_insert_slice() {
    let vm = &mut Vm::of_integers();
    let fill = |vm: &mut Vm, sizes: &[usize], f: fn(u64, u64) -> u64| {
        let shape: Vec<Dimension> = sizes.iter().map(|n| Static(*n)).collect();
        let ty = vm.memref(&shape);
        let memref = vm.allocate(ty, vec![]);
        vm.region = Rc::new(move |index| f(index[0] as u64, index[1] as u64));
        vm.generate(memref.clone());
        memref
    };

    // src is a 2x3 memref with src[i][j] = i*3 + j, and the view has offsets [0, 1]:
    // view[i][j] = src[i][1 + j] = i*3 + j + 1.
    let src = fill(vm, &[2, 3], |i, j| i * 3 + j);
    let view = vm.subview(
        src,
        constants(&[0, 1]),
        constants(&[2, 2]),
        constants(&[1, 1]),
    );
    for i in 0..2 {
        for j in 0..2 {
            let result = vm.element(view.desc(), &[i, j]);
            assert_eq!(result, (i * 3 + j + 1) as u64);
        }
    }

    // dst is a copy of src, which has src[i][j] = i*10 + j.
    let src = fill(vm, &[2, 2], |i, j| i * 10 + j);
    let dst = fill(vm, &[2, 2], |_, _| 7);
    vm.copy(dst.clone(), src.clone());
    for i in 0..2 {
        for j in 0..2 {
            assert_eq!(vm.element(dst.desc(), &[i, j]), (i * 10 + j) as u64);
        }
    }

    // res is dst, with dst[i][j] = 100 + i*4 + j, with the 2x2 src inserted at
    // offsets [1, 1].
    let dst = fill(vm, &[3, 4], |i, j| 100 + i * 4 + j);
    let res = fill(vm, &[3, 4], |_, _| 7);
    vm.copy(res.clone(), dst);
    let view = vm.subview(
        res.clone(),
        constants(&[1, 1]),
        constants(&[2, 2]),
        constants(&[1, 1]),
    );
    vm.copy(view, src);
    for i in 0..3 {
        for j in 0..4 {
            let expected = if (1..3).contains(&i) && (1..3).contains(&j) {
                (i - 1) * 10 + (j - 1)
            } else {
                100 + i * 4 + j
            };
            assert_eq!(vm.element(res.desc(), &[i, j]), expected as u64);
        }
    }
}

/// Generated tensors, elements, and the element-wise operations.
#[test]
fn test_elementwise_ops_from_rust() {
    let vm = &mut Vm::of_integers();
    let ty = vm.tensor(&[Static(16), Static(16)]);
    vm.region = Rc::new(|index| (index[0] + index[1]) as u64);
    let function = Function {
        types: vec![ty, ty],
        arguments: 0,
        nodes: vec![
            node(0, &[], move |ctx, _| {
                GenerateOp::new(ctx, vec![], ty, 500, |args: Vec<Value>| args[0])
            }),
            sum(1, 0, 0, ty),
        ],
        outputs: vec![1],
    };
    let result = function.run(vm, vec![]).pop().unwrap();
    for i in 0..16 {
        for j in 0..16 {
            assert_eq!(vm.element(result.desc(), &[i, j]), ((i + j) * 2) as u64);
        }
    }

    let int_lhs_data = [1u64, 2, 3, 4, 5, 6, 7, 8, 9, 10, 11, 12, 13, 14, 15, 16];
    let int_rhs_data = [16u64, 15, 14, 13, 12, 11, 10, 9, 8, 7, 6, 5, 4, 3, 2, 1];
    let ty = vm.tensor(&[Static(4), Dynamic]);
    let add = Function {
        types: vec![ty, ty, ty],
        arguments: 2,
        nodes: vec![sum(2, 0, 1, ty)],
        outputs: vec![2],
    };
    let lhs = Rt::Desc(vm.store(&[4, 4], &int_lhs_data));
    let rhs = Rt::Desc(vm.store(&[4, 4], &int_rhs_data));
    let result = add.run(vm, vec![lhs, rhs]).pop().unwrap();
    assert_eq!(data_of(vm, &result), [17; 16]);

    let lhs_data = [
        1.0f64, 2.0, 3.0, 4.0, 5.0, 6.0, 7.0, 8.0, 9.0, 10.0, 11.0, 12.0, 13.0, 14.0, 15.0, 16.0,
    ];
    let rhs_data = [
        16.0f64, 15.0, 14.0, 13.0, 12.0, 11.0, 10.0, 9.0, 8.0, 7.0, 6.0, 5.0, 4.0, 3.0, 2.0, 1.0,
    ];
    let vm = &mut Vm::of_floats();
    let ty = vm.tensor(&[Static(4), Static(4)]);
    let lhs = Rt::Desc(vm.store(&[4, 4], &floats(&lhs_data)));
    let rhs = Rt::Desc(vm.store(&[4, 4], &floats(&rhs_data)));
    let add = Function {
        types: vec![ty, ty, ty],
        arguments: 2,
        nodes: vec![sum(2, 0, 1, ty)],
        outputs: vec![2],
    };
    let result = add.run(vm, vec![lhs.clone(), rhs.clone()]).pop().unwrap();
    assert_eq!(data_of(vm, &result), floats(&[17.0; 16]));

    // The element-wise operations always allocate a new buffer for their result, so `lhs`
    // and `rhs` stay unchanged.
    let all_binops = Function {
        types: vec![ty; 6],
        arguments: 2,
        nodes: vec![
            sum(2, 0, 1, ty),
            products(3, 2, 1, ty),
            quotients(4, 3, 0, ty),
            difference(5, 4, 4, ty),
        ],
        outputs: vec![4, 5],
    };
    let results = all_binops.run(vm, vec![lhs.clone(), rhs]);
    let binops_res = data_of(vm, &results[0]);
    for ((&a, &b), &c) in lhs_data.iter().zip(rhs_data.iter()).zip(binops_res.iter()) {
        let expected = ((a + b) * b) / a;
        assert!((f64::from_bits(c) - expected).abs() < 1e-12);
    }
    assert_eq!(data_of(vm, &results[1]), floats(&[0.0; 16]));
    assert_eq!(data_of(vm, &lhs), floats(&lhs_data));
}

/// Products of matrices, with static and with dynamic shapes, and of batches of them.
#[test]
fn test_matmul_from_rust() {
    let lhs_data = [1u64; 16];
    let rhs_data = [1u64, 2, 3, 4, 5, 6, 7, 8, 9, 10, 11, 12, 13, 14, 15, 16];

    // The three products differ only in how static the shapes of their operands are.
    let shapes = [
        [
            [Static(4), Static(4)],
            [Static(4), Static(4)],
            [Static(4), Static(4)],
        ],
        [
            [Static(4), Dynamic],
            [Dynamic, Static(4)],
            [Static(4), Static(4)],
        ],
        [[Dynamic, Dynamic], [Dynamic, Dynamic], [Dynamic, Dynamic]],
    ];
    for [lhs_shape, rhs_shape, accum_shape] in shapes {
        let vm = &mut Vm::of_integers();
        let types = vec![
            vm.tensor(&lhs_shape),
            vm.tensor(&rhs_shape),
            vm.tensor(&accum_shape),
            vm.tensor(&accum_shape),
        ];
        let function = Function {
            types,
            arguments: 3,
            nodes: vec![mat_mul(3, 0, 1, 2)],
            outputs: vec![3],
        };
        let lhs = Rt::Desc(vm.store(&[4, 4], &lhs_data));
        let rhs = Rt::Desc(vm.store(&[4, 4], &rhs_data));
        // The accumulator may be written in place, so it is fresh.
        let accum = Rt::Desc(vm.store(&[4, 4], &[1u64; 16]));
        let result = function.run(vm, vec![lhs, rhs, accum]).pop().unwrap();
        assert_eq!(
            data_of(vm, &result),
            [29u64, 33, 37, 41, 29, 33, 37, 41, 29, 33, 37, 41, 29, 33, 37, 41],
            "the product of {lhs_shape:?} and {rhs_shape:?} is wrong"
        );
        assert_eq!(vm.mallocs, 0);
    }

    // Batch 0 lhs: [[1,2,3],[4,5,6]], rhs: [[1,2],[3,4],[5,6]]
    // result: [[22,28],[49,64]]
    // Batch 1 lhs: [[7,8,9],[10,11,12]], rhs: [[7,8],[9,10],[11,12]]
    // result: [[220,244],[301,334]]
    let batch_data = [1u64, 2, 3, 4, 5, 6, 7, 8, 9, 10, 11, 12];
    let batch_accum_data = [1u64, 1, 1, 1, 2, 2, 2, 2];
    for inner in [Static(3), Dynamic] {
        let vm = &mut Vm::of_integers();
        let types = vec![
            vm.tensor(&[Static(2), Static(2), inner]),
            vm.tensor(&[Static(2), inner, Static(2)]),
            vm.tensor(&[Static(2), Static(2), Static(2)]),
            vm.tensor(&[Static(2), Static(2), Static(2)]),
        ];
        let function = Function {
            types,
            arguments: 3,
            nodes: vec![node(3, &[0, 1, 2], |_, values| {
                BatchMatMulOp::new(values[0], values[1], values[2])
            })],
            outputs: vec![3],
        };
        let lhs = Rt::Desc(vm.store(&[2, 2, 3], &batch_data));
        let rhs = Rt::Desc(vm.store(&[2, 3, 2], &batch_data));
        let accum = Rt::Desc(vm.store(&[2, 2, 2], &batch_accum_data));
        let result = function.run(vm, vec![lhs, rhs, accum]).pop().unwrap();
        assert_eq!(
            data_of(vm, &result),
            [23u64, 29, 50, 65, 222, 246, 303, 336]
        );
    }
}

/// [TrackedTMM] must account for every tensor that is allocated.
#[test]
fn test_tracked_tmm_from_rust() {
    let vm = &mut Vm::of_integers();
    vm.tmm = Some(TrackedTMM::new());
    let live = |vm: &Vm| vm.tmm.as_ref().unwrap().tracked_allocations().len();

    // No tensor is allocated yet.
    assert_eq!(live(vm), 0);

    let add_lhs_data = [1u64, 2, 3, 4, 5, 6, 7, 8, 9, 10, 11, 12, 13, 14, 15, 16];
    let add_rhs_data = [16u64, 15, 14, 13, 12, 11, 10, 9, 8, 7, 6, 5, 4, 3, 2, 1];
    let ty = vm.tensor(&[Static(4), Static(4)]);
    let add = Function {
        types: vec![ty; 3],
        arguments: 2,
        nodes: vec![sum(2, 0, 1, ty)],
        outputs: vec![2],
    };
    let lhs = Rt::Desc(vm.store(&[4, 4], &add_lhs_data));
    let rhs = Rt::Desc(vm.store(&[4, 4], &add_rhs_data));
    let result = add.run(vm, vec![lhs, rhs]).pop().unwrap();

    // We have one tensor allocated for the result.
    assert_eq!(live(vm), 1);
    assert_eq!(data_of(vm, &result), [17; 16]);

    let lhs_data = [1i64, 2, 3, 4, 5, 6, 7, 8, 2, 1, 0, 3, 4, 2, 1, 5];
    let rhs_data = [2i64, 1, 0, 1, 3, 2, 1, 0, 4, 1, 2, 3, 1, 0, 2, 1];
    let words = |data: &[i64]| data.iter().map(|v| *v as u64).collect::<Vec<_>>();
    let complex = Function {
        types: vec![ty; 7],
        arguments: 3,
        nodes: vec![
            mat_mul(3, 0, 1, 2),
            sum(4, 3, 0, ty),
            difference(5, 4, 1, ty),
            products(6, 5, 0, ty),
        ],
        outputs: vec![6],
    };
    let lhs = Rt::Desc(vm.store(&[4, 4], &words(&lhs_data)));
    let rhs = Rt::Desc(vm.store(&[4, 4], &words(&rhs_data)));
    let accum = Rt::Desc(vm.store(&[4, 4], &[0u64; 16]));
    let result = complex.run(vm, vec![lhs, rhs, accum]).pop().unwrap();
    assert!(
        live(vm) >= 4,
        "expected allocations for intermediates and final result"
    );

    let mut expected = [0i64; 16];
    for i in 0..4 {
        for j in 0..4 {
            let mut mat = 0i64;
            for k in 0..4 {
                mat += lhs_data[i * 4 + k] * rhs_data[k * 4 + j];
            }
            let sum = mat + lhs_data[i * 4 + j];
            let diff = sum - rhs_data[i * 4 + j];
            expected[i * 4 + j] = diff * lhs_data[i * 4 + j];
        }
    }
    assert_eq!(data_of(vm, &result), words(&expected));

    // What is deallocated is no longer accounted for.
    let before = live(vm);
    let memref = vm.bind(result);
    let op = TrackedDeallocOp::new_with_tmm(memref, ConstPointerAttr(TMM_ADDRESS));
    assert!(op.verify().is_ok());
    let plan = op.rewrite(true).unwrap();
    vm.run(&plan);
    assert_eq!(live(vm), before - 1);

    let freed = vm.tmm.as_mut().unwrap().free_all();
    assert_eq!(freed.len(), before - 1);
    assert_eq!(live(vm), 0);
}

#[test]
fn test_successor_operand_aliasing_needs_copy() {
    // A block passes `x` on and goes on to use it. The next block updates what it got.
    for successors in [1, 2] {
        let vm = &mut Vm::of_integers();
        let ty = vm.tensor(&[Static(4)]);
        let scalar = vm.elem;
        let value = |ty, definer| ValueDef {
            ty,
            definer,
            writable: true,
        };
        let (x, y, update, updated) = (0, 1, 2, 3);
        let insert = insert_slice(updated, update, y, &[0], &[1], &[1]);
        let one = vm.tensor(&[Static(1)]);
        let operand = |id: usize, ty| Value { id, ty };
        let info = (insert.info)(
            &mut vm.ctx,
            &[operand(update, one), operand(y, ty)],
            2,
        );
        let program = Program {
            values: vec![
                value(ty, DefiningEntity::Op(0)),
                value(ty, DefiningEntity::Block(1)),
                value(one, DefiningEntity::Op(0)),
                value(ty, DefiningEntity::Op(2)),
                value(scalar, DefiningEntity::Op(0)),
            ],
            ops: vec![
                ProgramOp {
                    operands: vec![],
                    successors: vec![],
                    is_branch: false,
                    bufferization: None,
                    live_after: vec![x, update],
                },
                ProgramOp {
                    operands: vec![x; successors],
                    successors: (0..successors)
                        .map(|_| Successor {
                            block: 1,
                            operands: vec![x],
                        })
                        .collect(),
                    is_branch: true,
                    bufferization: None,
                    live_after: vec![],
                },
                ProgramOp {
                    operands: vec![update, y],
                    successors: vec![],
                    is_branch: false,
                    bufferization: Some(info),
                    live_after: vec![x, updated],
                },
            ],
            blocks: vec![
                ProgramBlock {
                    parent_op: None,
                    arguments: vec![],
                    live_in: vec![],
                },
                ProgramBlock {
                    parent_op: Some(0),
                    arguments: vec![y],
                    live_in: vec![x, update],
                },
            ],
        };
        let bufferizer = bufferize(&program, &vm.ctx);
        for index in 0..successors {
            assert!(bufferizer
                .successor_operands_needing_copy
                .contains(&(1, index)));
        }
        assert!(bufferizer.can_convert_op(&program, 1));

        let memref = vm.memref(&[Static(4)]);
        let source = vm.store(&[4], &[1, 2, 3, 4]);
        vm.values.insert(x, Rt::Desc(source.clone()));
        let operands = vec![operand(x, memref); successors];
        let copies = bufferizer
            .rewrite(&vm.ctx, 1, &operands, &vec![None; successors])
            .unwrap();
        let results = vm.run_steps(&copies.steps);
        let passed = vm.get(&results, &copies.operands[0]);
        vm.values.insert(y, passed);
        let ten = vm.store(&[1], &[10]);
        vm.values.insert(update, Rt::Desc(ten));

        let operands = vec![operand(update, vm.memref(&[Static(1)])), operand(y, memref)];
        let copies = bufferizer
            .rewrite(&vm.ctx, 2, &operands, &vec![None, None])
            .unwrap();
        let results = vm.run_steps(&copies.steps);
        let bound: Vec<Value> = copies
            .operands
            .iter()
            .zip(&operands)
            .map(|(r, operand)| {
                let rt = vm.get(&results, r);
                vm.bind_as(rt, operand.ty)
            })
            .collect();
        let plan = match (insert.lower)(&mut vm.ctx, &bound) {
            Rewrite::Replaced(plan) => plan,
            other => panic!("{other:?}"),
        };
        let result = vm.run(&plan).pop().unwrap();

        // z is the original x = [1, 2, 3, 4], and y is x with index 0 updated to 10:
        // sum[0] = 1 + 10 = 11
        let sum = vm.element(&source, &[0]) + vm.element(result.desc(), &[0]);
        assert_eq!(sum, 11);
    }
}

/// Slices of tensors are views of memrefs.
#[test]
fn test_extract_slice() {
    let vm = &mut Vm::of_integers();
    let src_data: Vec<u64> = (0..200_u64).collect();
    let src = Rt::Desc(vm.store(&[10, 20], &src_data));
    let source_ty = vm.tensor(&[Static(10), Static(20)]);
    let slice_ty = vm.tensor(&[Static(5), Static(10)]);

    let function = Function {
        types: vec![source_ty, slice_ty],
        arguments: 1,
        nodes: vec![extract_slice(1, 0, &[0, 2], &[5, 10], &[1, 2])],
        outputs: vec![1],
    };
    let result = function.run(vm, vec![src.clone()]).pop().unwrap();
    let mut expected = Vec::with_capacity(5 * 10);
    for i in 0..5_u64 {
        for j in 0..10_u64 {
            // src[i][2 + 2*j] for offsets [0, 2], sizes [5, 10], strides [1, 2].
            expected.push(i * 20 + 2 + 2 * j);
        }
    }
    assert_eq!(data_of(vm, &result), expected);

    let first_ty = vm.tensor(&[Static(7), Static(9)]);
    let second_ty = vm.tensor(&[Static(3), Static(4)]);
    let sequential = Function {
        types: vec![source_ty, first_ty, second_ty],
        arguments: 1,
        nodes: vec![
            extract_slice(1, 0, &[1, 2], &[7, 9], &[1, 2]),
            extract_slice(2, 1, &[1, 1], &[3, 4], &[2, 2]),
        ],
        outputs: vec![2],
    };
    let result = sequential.run(vm, vec![src.clone()]).pop().unwrap();
    let mut expected = Vec::with_capacity(3 * 4);
    for i in 0..3_u64 {
        for j in 0..4_u64 {
            // first[i1, j1] = src[1 + i1, 2 + 2*j1]
            // second[i, j] = first[1 + 2*i, 1 + 2*j] = src[2 + 2*i, 4 + 4*j]
            expected.push((2 + 2 * i) * 20 + (4 + 4 * j));
        }
    }
    assert_eq!(data_of(vm, &result), expected);

    let live_source = Function {
        types: vec![source_ty, slice_ty, slice_ty],
        arguments: 1,
        nodes: vec![
            extract_slice(1, 0, &[0, 0], &[5, 10], &[1, 1]),
            extract_slice(2, 0, &[5, 10], &[5, 10], &[1, 1]),
        ],
        outputs: vec![1, 2, 0],
    };
    let results = live_source.run(vm, vec![src]);
    let mut expected_first = Vec::with_capacity(5 * 10);
    let mut expected_second = Vec::with_capacity(5 * 10);
    for i in 0..5_u64 {
        for j in 0..10_u64 {
            expected_first.push(i * 20 + j);
            expected_second.push((5 + i) * 20 + (10 + j));
        }
    }
    assert_eq!(data_of(vm, &results[0]), expected_first);
    assert_eq!(data_of(vm, &results[1]), expected_second);

    // A slice only reads its source, so none needs a buffer of its own.
    assert_eq!(vm.mallocs, 0);
}

#[test]
fn test_insert_slice() {
    let vm = &mut Vm::of_integers();
    let src_data: Vec<u64> = (100..150_u64).collect();
    let dst_data: Vec<u64> = (0..200_u64).collect();
    let src = Rt::Desc(vm.store(&[5, 10], &src_data));
    let dst = Rt::Desc(vm.store(&[10, 20], &dst_data));
    let src_ty = vm.tensor(&[Static(5), Static(10)]);
    let dst_ty = vm.tensor(&[Static(10), Static(20)]);

    // The destination, with the source inserted and all other elements unchanged.
    let mut expected_updated = dst_data.clone();
    for i in 0..5_usize {
        for j in 0..10_usize {
            expected_updated[i * 20 + (2 + 2 * j)] = src_data[i * 10 + j];
        }
    }

    let insert = Function {
        types: vec![src_ty, dst_ty, dst_ty],
        arguments: 2,
        nodes: vec![insert_slice(2, 0, 1, &[0, 2], &[5, 10], &[1, 2])],
        outputs: vec![2],
    };
    let result = insert.run(vm, vec![src.clone(), dst]).pop().unwrap();
    assert_eq!(data_of(vm, &result), expected_updated);
    // It writes in place only when the buffer of the destination isn't seen later.
    assert_eq!(vm.mallocs, 0);

    // The in-place write above has updated the destination.
    let dst = Rt::Desc(vm.store(&[10, 20], &dst_data));
    let dest_live_after = Function {
        types: vec![src_ty, dst_ty, dst_ty],
        arguments: 2,
        nodes: vec![insert_slice(2, 0, 1, &[0, 2], &[5, 10], &[1, 2])],
        outputs: vec![2, 1],
    };
    let results = dest_live_after.run(vm, vec![src, dst]);
    assert_eq!(
        data_of(vm, &results[0]),
        expected_updated,
        "updated tensor does not reflect the inserted slice"
    );
    assert_eq!(
        data_of(vm, &results[1]),
        dst_data,
        "dst was mutated in place even though it was still live after the insert"
    );
    assert_eq!(vm.mallocs, 1);

    let t_data: Vec<u64> = (0..16_u64).collect();
    let small_data: Vec<u64> = vec![900, 901, 902, 903];
    let t = Rt::Desc(vm.store(&[4, 4], &t_data));
    let small = Rt::Desc(vm.store(&[2, 2], &small_data));
    let t_ty = vm.tensor(&[Static(4), Static(4)]);
    let small_ty = vm.tensor(&[Static(2), Static(2)]);
    let write_through_slice = Function {
        types: vec![t_ty, small_ty, small_ty, small_ty],
        arguments: 2,
        nodes: vec![
            extract_slice(2, 0, &[1, 1], &[2, 2], &[1, 1]),
            insert_slice(3, 1, 2, &[0, 0], &[2, 2], &[1, 1]),
        ],
        outputs: vec![3, 0],
    };
    let results = write_through_slice.run(vm, vec![t, small]);
    assert_eq!(
        data_of(vm, &results[0]),
        small_data,
        "the inserted slice is wrong"
    );
    assert_eq!(
        data_of(vm, &results[1]),
        t_data,
        "`t` was clobbered by a write through its slice"
    );
    assert_eq!(vm.mallocs, 2);
}

#[test]
fn test_tensor_reshape_from_rust() {
    let input_data = [1u64, 2, 3, 4, 5, 6];
    let vm = &mut Vm::of_integers();
    let input = Rt::Desc(vm.store(&[2, 3], &input_data));
    let (input_ty, result_ty) = (
        vm.tensor(&[Static(2), Static(3)]),
        vm.tensor(&[Dynamic, Static(2)]),
    );
    let (index, elem) = (vm.index, vm.elem);
    let function = Function {
        types: vec![input_ty, index, result_ty, index, index, elem],
        arguments: 5,
        nodes: vec![
            node(2, &[0, 1], move |_, values| {
                ReshapeOp::new(values[0], vec![values[1]], result_ty)
            }),
            node(5, &[2, 3, 4], move |_, values| {
                ExtractOp::new(elem, values[0], vec![values[1], values[2]])
            }),
        ],
        outputs: vec![5],
    };
    let mut f = |i: usize, j: usize| {
        let arguments = vec![
            input.clone(),
            Rt::Int(3),
            Rt::Unit,
            Rt::Int(i),
            Rt::Int(j),
        ];
        function.run(vm, arguments)[0].elem()
    };

    // 2x3 row-major [1,2,3,4,5,6] reshaped to 3x2 is:
    // [[1,2], [3,4], [5,6]]
    assert_eq!(f(0, 0), 1);
    assert_eq!(f(1, 0), 3);
    assert_eq!(f(2, 1), 6);
}

/// A product of 4x4 matrices, by 2x2 tiles, in a loop over rows of tiles with a loop over columns
/// of tiles in it. Both carry the accumulator. They are made of blocks that pass it on, or are
/// operations that hold their bodies.
#[test]
fn test_tiled_matmul() {
    for structured in [false, true] {
        let vm = &mut Vm::of_integers();
        let a_data: Vec<u64> = (1..=16_u64).collect();
        let b_data: Vec<u64> = (17..=32_u64).collect();
        let c_data: Vec<u64> = (0..16_u64).map(|x| x * 100).collect();

        // Products are added to the accumulator, so the tiles compute C + A*B.
        let mut expected = c_data.clone();
        for i in 0..4_usize {
            for j in 0..4_usize {
                for k in 0..4_usize {
                    expected[i * 4 + j] += a_data[i * 4 + k] * b_data[k * 4 + j];
                }
            }
        }

        let whole = vm.tensor(&[Static(4), Static(4)]);
        let rows_ty = vm.tensor(&[Static(2), Static(4)]);
        let columns_ty = vm.tensor(&[Static(4), Static(2)]);
        let tile_ty = vm.tensor(&[Static(2), Static(2)]);
        let index = vm.index;
        let (a, b, c, zero, i, outer, j, inner) = (0, 1, 2, 3, 4, 5, 6, 7);
        let (rows, columns, tile, product, updated) = (8, 9, 10, 11, 12);
        let (next_j, row, next_i, result) = (13, 14, 15, 16);
        let slice = move |result, source, at: Vec<usize>, held: [bool; 2], sizes: [usize; 2]| {
            let mut operands = vec![source];
            operands.extend(at);
            node(result, &operands, move |ctx, values| {
                let mut rest = values[1..].iter();
                let offsets = held
                    .iter()
                    .map(|held| match held {
                        true => SliceParam::Dynamic(*rest.next().unwrap()),
                        false => SliceParam::Static(0),
                    })
                    .collect();
                let sizes = constants(&sizes);
                let ty = result_like(ctx, values[0].ty, &sizes);
                ExtractSliceOp::new_with_result_type(
                    values[0],
                    offsets,
                    sizes,
                    constants(&[1, 1]),
                    ty,
                )
            })
        };
        let nodes = [
            slice(rows, a, vec![i], [true, false], [2, 4]),
            slice(columns, b, vec![j], [false, true], [4, 2]),
            slice(tile, inner, vec![i, j], [true, true], [2, 2]),
            mat_mul(product, rows, columns, tile),
            node(updated, &[product, inner, i, j], |_, values| {
                InsertSliceOp::new(
                    values[0],
                    values[1],
                    vec![SliceParam::Dynamic(values[2]), SliceParam::Dynamic(values[3])],
                    constants(&[2, 2]),
                    constants(&[1, 1]),
                )
            }),
        ];
        let types = [
            whole, whole, whole, index, index, whole, index, whole, rows_ty, columns_ty, tile_ty,
            tile_ty, whole, index, whole, index, whole,
        ];
        let value = |id: usize| Value { id, ty: types[id] };

        // Operation 0 is the function, and 1 defines zero. Operation 2 enters the outer loop, and
        // 3 the inner one, whose body is made of operations 4 to 10. Operations 11 and 12 are the
        // rest of the outer loop.
        let (enter_outer, enter_inner, body, leave_inner, leave_outer) = (2, 3, 4, 10, 12);
        let for_op = |carried: usize| ForOp {
            op: Operation {
                operands: [zero, zero, zero, carried].map(value).to_vec(),
                result_types: vec![whole],
            },
            num_bounds: 3,
        };
        let native = |operands: Vec<usize>, live_after: Vec<usize>| ProgramOp {
            operands,
            successors: vec![],
            is_branch: false,
            bufferization: None,
            live_after,
        };
        let enter = |at: usize, carried: usize, result: usize, block: usize, live: [&[usize]; 2]| {
            if structured {
                ProgramOp {
                    bufferization: Some(bufferization_info(&for_op(carried), at, &[result])),
                    ..native(vec![zero, zero, zero, carried], live[0].to_vec())
                }
            } else {
                ProgramOp {
                    successors: vec![Successor {
                        block,
                        operands: vec![zero, carried],
                    }],
                    is_branch: true,
                    ..native(vec![zero, carried], live[1].to_vec())
                }
            }
        };
        let leave = |next: usize, carried: usize, block: usize, after: usize, live: &[usize]| {
            if structured {
                native(vec![carried], live.to_vec())
            } else {
                ProgramOp {
                    successors: vec![
                        Successor {
                            block,
                            operands: vec![next, carried],
                        },
                        Successor {
                            block: after,
                            operands: vec![carried],
                        },
                    ],
                    is_branch: true,
                    ..native(vec![next, carried, carried], live.to_vec())
                }
            }
        };
        let mut ops = vec![
            ProgramOp {
                bufferization: Some(BufferizationInfo {
                    aliases: vec![],
                    writes: vec![],
                }),
                ..native(vec![], vec![])
            },
            native(vec![], vec![a, b, c, zero]),
            enter(enter_outer, c, result, 1, [&[result], &[a, b, zero]]),
            enter(
                enter_inner,
                outer,
                row,
                2,
                [&[a, b, zero, i, row], &[a, b, zero, i]],
            ),
        ];
        let live = [
            vec![a, b, zero, i, j, inner, rows],
            vec![a, b, zero, i, j, inner, rows, columns],
            vec![a, b, zero, i, j, inner, rows, columns, tile],
            vec![a, b, zero, i, j, inner, product],
            vec![a, b, zero, i, j, updated],
        ];
        for (k, (node, live_after)) in nodes.iter().zip(live).enumerate() {
            let operands: Vec<Value> = node.operands.iter().map(|id| value(*id)).collect();
            ops.push(ProgramOp {
                bufferization: Some((node.info)(&mut vm.ctx, &operands, body + k)),
                ..native(node.operands.clone(), live_after)
            });
        }
        ops.push(native(vec![j], vec![a, b, zero, i, updated, next_j]));
        ops.push(leave(next_j, updated, 2, 3, &[a, b, zero, i]));
        ops.push(native(vec![i], vec![a, b, zero, row, next_i]));
        ops.push(leave(next_i, row, 1, 4, &[a, b, zero]));
        let result_of = |op: usize, block: usize| {
            if structured {
                DefiningEntity::Op(op)
            } else {
                DefiningEntity::Block(block)
            }
        };
        let definers = [
            DefiningEntity::Block(0),
            DefiningEntity::Block(0),
            DefiningEntity::Block(0),
            DefiningEntity::Op(1),
            DefiningEntity::Block(1),
            DefiningEntity::Block(1),
            DefiningEntity::Block(2),
            DefiningEntity::Block(2),
            DefiningEntity::Op(4),
            DefiningEntity::Op(5),
            DefiningEntity::Op(6),
            DefiningEntity::Op(7),
            DefiningEntity::Op(8),
            DefiningEntity::Op(9),
            result_of(enter_inner, 3),
            DefiningEntity::Op(11),
            result_of(enter_outer, 4),
        ];
        let block = |parent_op, arguments: Vec<usize>, live_in: Vec<usize>| ProgramBlock {
            parent_op: Some(parent_op),
            arguments,
            live_in,
        };
        let program = Program {
            values: (0..types.len())
                .map(|id| ValueDef {
                    ty: types[id],
                    definer: definers[id],
                    writable: true,
                })
                .collect(),
            ops,
            blocks: if structured {
                vec![
                    block(0, vec![a, b, c], vec![]),
                    block(enter_outer, vec![i, outer], vec![a, b, zero]),
                    block(enter_inner, vec![j, inner], vec![a, b, zero, i]),
                ]
            } else {
                vec![
                    block(0, vec![a, b, c], vec![]),
                    block(0, vec![i, outer], vec![a, b, zero]),
                    block(0, vec![j, inner], vec![a, b, zero, i]),
                    block(0, vec![row], vec![a, b, zero, i]),
                    block(0, vec![result], vec![]),
                ]
            },
        };
        let bufferizer = bufferize(&program, &vm.ctx);
        let values: Vec<Value> = (0..types.len())
            .map(|id| Value {
                id,
                ty: bufferizer.convert_type(&mut vm.ctx, types[id]),
            })
            .collect();

        for (id, data) in [(a, &a_data), (b, &b_data), (c, &c_data)] {
            let desc = vm.store(&[4, 4], data);
            vm.values.insert(id, Rt::Desc(desc));
        }
        vm.values.insert(zero, Rt::Int(0));
        // What an operation passes on, by the number of the operand.
        let pass = |vm: &mut Vm, at: usize| -> Vec<Rt> {
            let ids = program.ops[at].operands.iter();
            let operands: Vec<Value> = ids.map(|id| values[*id]).collect();
            let sizes = vec![None; operands.len()];
            let passed = copy_operands(vm, &bufferizer, at, operands, sizes);
            passed.iter().map(|value| vm.values[&value.id].clone()).collect()
        };
        let mut tensor = pass(vm, enter_outer).pop().unwrap();
        for n in 0..2 {
            vm.values.insert(i, Rt::Int(2 * n));
            vm.values.insert(outer, tensor);
            let mut tiles = pass(vm, enter_inner).pop().unwrap();
            for k in 0..2 {
                vm.values.insert(j, Rt::Int(2 * k));
                vm.values.insert(inner, tiles);
                for (k, node) in nodes.iter().enumerate() {
                    run_node(vm, &bufferizer, body + k, node, &values);
                }
                vm.values.insert(next_j, Rt::Int(2 * (k + 1)));
                let mut passed = pass(vm, leave_inner);
                let last = k == 1 || structured;
                tiles = if last { passed.pop().unwrap() } else { passed.swap_remove(1) };
            }
            vm.values.insert(row, tiles);
            vm.values.insert(next_i, Rt::Int(2 * (n + 1)));
            let mut passed = pass(vm, leave_outer);
            let last = n == 1 || structured;
            tensor = if last { passed.pop().unwrap() } else { passed.swap_remove(1) };
        }
        assert_eq!(
            data_of(vm, &tensor),
            expected,
            "loops that are structured: {structured}"
        );
        // `a` and `b` are only read, so their tiles are plain views. The tile of the accumulator
        // gets its own buffer in every round.
        assert_eq!(vm.mallocs, 4);
    }
}

/// A product of 4x4 matrices, by 2x2 tiles, one operation after the other.
#[test]
fn a_product_by_tiles_without_a_loop() {
    let vm = &mut Vm::of_integers();
    let a_data: Vec<u64> = (1..=16_u64).collect();
    let b_data: Vec<u64> = (17..=32_u64).collect();
    let c_data: Vec<u64> = (0..16_u64).map(|x| x * 100).collect();

    // Products are added to the accumulator, so the tiles compute C + A*B.
    let mut expected = c_data.clone();
    for i in 0..4_usize {
        for j in 0..4_usize {
            for k in 0..4_usize {
                expected[i * 4 + j] += a_data[i * 4 + k] * b_data[k * 4 + j];
            }
        }
    }

    let whole = vm.tensor(&[Static(4), Static(4)]);
    let rows = vm.tensor(&[Static(2), Static(4)]);
    let columns = vm.tensor(&[Static(4), Static(2)]);
    let tile = vm.tensor(&[Static(2), Static(2)]);
    let mut types = vec![whole, whole, whole];
    let mut nodes = Vec::new();
    let mut c = 2;
    for i in [0, 2] {
        for j in [0, 2] {
            let first = types.len();
            types.extend_from_slice(&[rows, columns, tile, tile, whole]);
            nodes.push(extract_slice(first, 0, &[i, 0], &[2, 4], &[1, 1]));
            nodes.push(extract_slice(first + 1, 1, &[0, j], &[4, 2], &[1, 1]));
            nodes.push(extract_slice(first + 2, c, &[i, j], &[2, 2], &[1, 1]));
            nodes.push(mat_mul(first + 3, first, first + 1, first + 2));
            nodes.push(insert_slice(first + 4, first + 3, c, &[i, j], &[2, 2], &[1, 1]));
            c = first + 4;
        }
    }
    let function = Function {
        types,
        arguments: 3,
        nodes,
        outputs: vec![c],
    };
    let a = Rt::Desc(vm.store(&[4, 4], &a_data));
    let b = Rt::Desc(vm.store(&[4, 4], &b_data));
    let c = Rt::Desc(vm.store(&[4, 4], &c_data));
    let result = function.run(vm, vec![a, b, c]).pop().unwrap();
    assert_eq!(data_of(vm, &result), expected);
    // `a` and `b` are only read, so their tiles are plain views. The tile of the accumulator
    // gets its own buffer in every round.
    assert_eq!(vm.mallocs, 4);
}

/// Makes the global of a constant, puts what it holds into memory, and makes a node whose
/// result is a memref of that.
fn constant(vm: &mut Vm, result: usize, value: DenseElementsAttr, symbols: &[&str]) -> (Node, Desc) {
    let op = ConstantOp {
        result_type: value.ty(),
        value,
    };
    let shape = vm.ctx.ranked_tensor(op.result_type).unwrap().shape.clone();
    let sizes: Vec<usize> = shape
        .iter()
        .map(|dim| match dim {
            Static(size) => *size,
            Dynamic => panic!("a constant has no dynamic dimension"),
        })
        .collect();
    assert!(!op.is_writable(DefiningEntity::Op(0)));
    let taken = symbols
        .iter()
        .map(|symbol| symbol.chars().collect())
        .collect();
    let mut counter = 0;
    let (global, get_global) = op
        .rewrite(&mut vm.ctx, Some(&taken), &mut counter)
        .unwrap();
    assert_eq!(counter, symbols.len() + 1);
    assert_eq!(global.name, get_global.name);
    assert!(!taken.contains(&global.name));
    assert!(global.is_constant);
    assert_eq!(global.ty, vm.memref(&shape));
    assert_eq!(global.value.ty(), global.ty);

    let words: Vec<u64> = global
        .value
        .expanded_data(&vm.ctx)
        .chunks(8)
        .map(|bytes| u64::from_ne_bytes(bytes.try_into().unwrap()))
        .collect();
    let stored = vm.store(&sizes, &words);
    let memref = vm.bind_as(Rt::Desc(stored.clone()), global.ty);
    let node = Node {
        operands: vec![],
        result,
        writable: false,
        info: Box::new(|_, _, _| BufferizationInfo {
            aliases: vec![],
            writes: vec![],
        }),
        sizes: Box::new(|_, _| vec![]),
        lower: Box::new(move |_, _| {
            Rewrite::Replaced(Plan {
                steps: vec![],
                replacement: ReplacementOf::Values(vec![Ref::Value(memref)]),
            })
        }),
    };
    (node, stored)
}

fn float_bytes(data: &[f64]) -> Vec<u8> {
    data.iter().flat_map(|v| v.to_ne_bytes()).collect()
}

#[test]
fn test_constant_from_rust() {
    let vm = &mut Vm::of_floats();
    let ty = vm.tensor(&[Static(2), Static(3)]);
    let elem = vm.elem;
    let data = [1.0, 2.0, 3.0, 4.0, 5.0, 6.0];
    let value = DenseElementsAttr::new(&vm.ctx, ty, float_bytes(&data)).unwrap();
    let index = vm.index;
    let (node_of_constant, _) = constant(vm, 2, value.clone(), &[]);
    let extract = Function {
        types: vec![index, index, ty, elem],
        arguments: 2,
        nodes: vec![
            node_of_constant,
            node(3, &[2, 0, 1], move |_, values| {
                ExtractOp::new(elem, values[0], vec![values[1], values[2]])
            }),
        ],
        outputs: vec![3],
    };
    for i in 0..2 {
        for j in 0..3 {
            let result = extract.run(vm, vec![Rt::Int(i), Rt::Int(j)])[0].elem();
            assert_eq!(f64::from_bits(result), (i * 3 + j + 1) as f64);
        }
    }

    let (node_of_constant, _) = constant(vm, 1, value, &["__constant_2x3xfp64_8B_0"]);
    let add = Function {
        types: vec![ty; 3],
        arguments: 1,
        nodes: vec![node_of_constant, sum(2, 0, 1, ty)],
        outputs: vec![2],
    };
    let arg_data = [10.0f64, 20.0, 30.0, 40.0, 50.0, 60.0];
    let arg = Rt::Desc(vm.store(&[2, 3], &floats(&arg_data)));
    let result = add.run(vm, vec![arg]).pop().unwrap();
    assert_eq!(
        data_of(vm, &result),
        floats(&[11.0, 22.0, 33.0, 44.0, 55.0, 66.0])
    );

    let ty = vm.tensor(&[Static(4), Static(4)]);
    let value = DenseElementsAttr::new_splat(&vm.ctx, ty, float_bytes(&[1.0])).unwrap();
    let (node_of_constant, _) = constant(vm, 0, value, &[]);
    let splat = Function {
        types: vec![ty],
        arguments: 0,
        nodes: vec![node_of_constant],
        outputs: vec![0],
    };
    let result = splat.run(vm, vec![]).pop().unwrap();
    assert_eq!(data_of(vm, &result), floats(&[1.0f64; 16]));

    // The product is added to the accumulator, which is a constant here. It must be added to
    // a copy, and thus two calls must give the same result.
    let vm = &mut Vm::of_integers();
    let ty = vm.tensor(&[Static(2), Static(2)]);
    let data: Vec<u8> = [10i64, 20, 30, 40]
        .iter()
        .flat_map(|v| v.to_ne_bytes())
        .collect();
    let value = DenseElementsAttr::new(&vm.ctx, ty, data).unwrap();
    let (node_of_constant, stored) = constant(vm, 2, value, &[]);
    let accumulate = Function {
        types: vec![ty; 4],
        arguments: 2,
        nodes: vec![node_of_constant, mat_mul(3, 0, 1, 2)],
        outputs: vec![3],
    };
    let lhs_data = [1u64, 2, 3, 4];
    let rhs_data = [5u64, 6, 7, 8];
    // [[1,2],[3,4]] * [[5,6],[7,8]] = [[19,22],[43,50]], plus [[10,20],[30,40]].
    for call in 0..2 {
        let lhs = Rt::Desc(vm.store(&[2, 2], &lhs_data));
        let rhs = Rt::Desc(vm.store(&[2, 2], &rhs_data));
        let result = accumulate.run(vm, vec![lhs, rhs]).pop().unwrap();
        assert_eq!(
            data_of(vm, &result),
            [29u64, 42, 73, 90],
            "call {call} wrote to the constant"
        );
    }
    assert_eq!(vm.load(&stored), [10, 20, 30, 40]);
    assert_eq!(vm.mallocs, 2);
}

#[test]
fn a_rank_two_batch_is_one_product() {
    let vm = &mut Vm::of_integers();
    let ty = vm.tensor(&[Static(2), Dynamic]);
    let function = Function {
        types: vec![ty; 4],
        arguments: 3,
        nodes: vec![node(3, &[0, 1, 2], |_, values| {
            BatchMatMulOp::new(values[0], values[1], values[2])
        })],
        outputs: vec![3],
    };
    let lhs = Rt::Desc(vm.store(&[2, 2], &[1, 2, 3, 4]));
    let rhs = Rt::Desc(vm.store(&[2, 2], &[5, 6, 7, 8]));
    let accum = Rt::Desc(vm.store(&[2, 2], &[0; 4]));
    let result = function.run(vm, vec![lhs, rhs, accum]).pop().unwrap();
    assert_eq!(data_of(vm, &result), [19, 22, 43, 50]);
}

#[test]
fn memory_is_not_shared_with_an_operand_that_is_read() {
    // The accumulator is also a factor, so it cannot be written in place.
    let vm = &mut Vm::of_integers();
    let ty = vm.tensor(&[Static(2), Static(2)]);
    let function = Function {
        types: vec![ty; 2],
        arguments: 1,
        nodes: vec![mat_mul(1, 0, 0, 0)],
        outputs: vec![1],
    };
    let a = Rt::Desc(vm.store(&[2, 2], &[1, 2, 3, 4]));
    let result = function.run(vm, vec![a.clone()]).pop().unwrap();
    assert_eq!(data_of(vm, &result), [8, 12, 18, 26]);
    assert_eq!(data_of(vm, &a), [1, 2, 3, 4]);
    assert_eq!(vm.mallocs, 1);
}

#[test]
fn each_copied_operand_gets_memory_of_its_own() {
    // A loop that carries one tensor twice.
    let vm = &mut Vm::of_integers();
    let ty = vm.tensor(&[Dynamic]);
    let memref = vm.memref(&[Dynamic]);
    let x = Value { id: 0, ty };
    let carried = ForOp {
        op: Operation {
            operands: vec![x, x],
            result_types: vec![ty, ty],
        },
        num_bounds: 0,
    };
    let value = |definer| ValueDef {
        ty,
        definer,
        writable: true,
    };
    let program = Program {
        values: vec![
            value(DefiningEntity::Op(0)),
            value(DefiningEntity::Op(1)),
            value(DefiningEntity::Op(1)),
        ],
        ops: vec![
            ProgramOp {
                operands: vec![],
                successors: vec![],
                is_branch: false,
                bufferization: None,
                live_after: vec![0],
            },
            ProgramOp {
                operands: vec![0, 0],
                successors: vec![],
                is_branch: false,
                bufferization: Some(bufferization_info(&carried, 1, &[1, 2])),
                live_after: vec![1, 2],
            },
        ],
        blocks: vec![],
    };
    let bufferizer = bufferize(&program, &vm.ctx);
    assert!(bufferizer.out_of_place_operands.contains(&(1, 0)));
    assert!(bufferizer.out_of_place_operands.contains(&(1, 1)));

    let source = vm.store(&[3], &[7, 8, 9]);
    vm.values.insert(0, Rt::Desc(source.clone()));
    let x = Value { id: 0, ty: memref };
    let copies = bufferizer
        .rewrite(&vm.ctx, 1, &vec![x, x], &vec![None, None])
        .unwrap();
    let results = vm.run_steps(&copies.steps);
    let first = vm.get(&results, &copies.operands[0]);
    let second = vm.get(&results, &copies.operands[1]);
    assert_ne!(first.desc().aligned, second.desc().aligned);
    assert_ne!(first.desc().aligned, source.aligned);
    assert_eq!(data_of(vm, &first), [7, 8, 9]);
    assert_eq!(data_of(vm, &second), [7, 8, 9]);
    assert_eq!(vm.load(&source), [7, 8, 9]);
}
