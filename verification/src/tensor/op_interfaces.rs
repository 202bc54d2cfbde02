//! What operations on tensors have in common.

use crate::ir;
use crate::ir::{Context, FuncOp, TypeHandle, Value};
use crate::memref::type_interfaces;
use crate::memref::type_interfaces::{Dimension, ShapedType};
use crate::plan::{Plan, PlanView};
use crate::search;
use crate::tensor::bufferize::{Alias, AliasErr, BufferizationInfo, DefiningEntity, Program, Use};
use vstd::prelude::*;

verus! {

/// What becomes of an operation.
#[derive(Debug, PartialEq, Eq)]
pub enum Rewrite {
    /// It is replaced.
    Replaced(Plan),
    /// It stays, and the arguments of its block and its results get other types.
    Retyped { arguments: Vec<TypeHandle>, results: Vec<TypeHandle> },
    /// It is a function, and becomes another one.
    Signature(FuncOp),
}

/// What a [Rewrite] is.
#[verifier::ext_equal]
pub enum RewriteView {
    Replaced(PlanView),
    Retyped { arguments: Seq<TypeHandle>, results: Seq<TypeHandle> },
    Signature { ty: TypeHandle, arguments: Seq<TypeHandle> },
}

impl View for Rewrite {
    type V = RewriteView;

    open spec fn view(&self) -> RewriteView {
        match *self {
            Rewrite::Replaced(plan) => RewriteView::Replaced(plan@),
            Rewrite::Retyped { arguments, results } => RewriteView::Retyped {
                arguments: arguments@,
                results: results@,
            },
            Rewrite::Signature(func) => RewriteView::Signature {
                ty: func.ty,
                arguments: func.arguments@,
            },
        }
    }
}

/// An operation that takes part in bufferization.
pub trait BufferizableOpInterface: Sized {
    /// The values that the operation uses.
    spec fn operands(&self) -> Seq<Value>;

    /// The number of results.
    spec fn num_results(&self) -> nat;

    /// The operand may be a tensor.
    spec fn takes_tensor(&self, opd: int) -> bool;

    /// The operation reads the buffer of the operand.
    spec fn reads(&self, opd: int) -> bool;

    /// The operation writes to the buffer of the operand.
    spec fn writes(&self, opd: int) -> bool;

    /// The operands and results that share a buffer, where the operation has number `at` and
    /// its results are the given values.
    spec fn aliases(&self, at: usize, results: Seq<usize>) -> Seq<Alias>;

    /// The sizes of the dynamic dimensions of the operand, if the operation knows them.
    spec fn dynamic_sizes(&self, opd: int) -> Option<Seq<Value>>;

    /// A value that the operation or one of its blocks defines can be written in place.
    spec fn writable(&self, definer: DefiningEntity) -> bool;

    /// The operands have been bufferized.
    spec fn ready(&self, ctx: Context) -> bool;

    /// What becomes of the operation.
    spec fn rewritten(&self, ctx: Context) -> RewriteView;

    /// The number of values that the operation uses.
    fn get_num_operands(&self) -> (r: usize)
        ensures
            r == self.operands().len(),
    ;

    /// Whether the operation reads the buffer of the operand.
    fn operand_bufferizes_to_memory_read(&self, opd: usize) -> (r: bool)
        ensures
            r == self.reads(opd as int),
    ;

    /// Whether the operation writes to the buffer of the operand.
    fn operand_bufferizes_to_memory_write(&self, opd: usize) -> (r: bool)
        ensures
            r == self.writes(opd as int),
    ;

    /// The operands and results that share a buffer.
    fn get_operand_result_aliases(&self, at: usize, results: &[usize]) -> (r: Vec<Alias>)
        requires
            results@.len() == self.num_results(),
        ensures
            r@ == self.aliases(at, results@),
    ;

    /// The sizes of the dynamic dimensions of the operand, if the operation knows them.
    fn get_dynamic_dimensions(&self, opd: usize) -> (r: Option<Vec<Value>>)
        ensures
            match r {
                Some(sizes) => self.dynamic_sizes(opd as int) == Some(sizes@),
                None => self.dynamic_sizes(opd as int) is None,
            },
    ;

    /// Whether a value that the operation or one of its blocks defines can be written in
    /// place.
    fn is_writable(&self, definer: DefiningEntity) -> (r: bool)
        ensures
            r == self.writable(definer),
    ;

    /// What becomes of the operation, whose operands have been bufferized.
    fn rewrite(&self, ctx: &mut Context) -> (r: Rewrite)
        requires
            old(ctx).wf(),
            self.ready(*old(ctx)),
        ensures
            final(ctx).wf(),
            final(ctx).extends(*old(ctx)),
            r@ == self.rewritten(*final(ctx)),
    ;

    /// A tensor that is written in place shares its buffer with a result, and aliases are
    /// between operands and results of the operation itself.
    proof fn law_writes_alias(&self, at: usize, results: Seq<usize>)
        requires
            results.len() == self.num_results(),
            self.operands().len() <= usize::MAX,
        ensures
            forall|opd: int|
                0 <= opd < self.operands().len() && self.takes_tensor(opd) && self.writes(opd)
                    ==> exists|j: int|
                    0 <= j < self.aliases(at, results).len() && (#[trigger] self.aliases(
                        at,
                        results,
                    )[j]).operand == (Use { op: at, index: opd as usize }),
            forall|j: int|
                0 <= j < self.aliases(at, results).len() ==> (#[trigger] self.aliases(
                    at,
                    results,
                )[j]).operand.op == at && results.contains(self.aliases(at, results)[j].result),
    ;
}

/// What is wrong with an alias that an operation declares, if anything is. `dynamic` are the
/// sizes of the dynamic dimensions of the operand, if the operation knows them.
pub open spec fn alias_error(
    program: Program,
    ctx: Context,
    alias: Alias,
    dynamic: Option<Seq<Value>>,
) -> Option<AliasErr> {
    let ty = program.values@[program.def(alias.operand) as int].ty;
    if program.values@[alias.result as int].definer != DefiningEntity::Op(alias.operand.op) {
        Some(AliasErr::InvalidAlias)
    } else {
        match shape_of(ctx, ty) {
            None => Some(AliasErr::InvalidOperandType),
            Some(shape) => match dynamic {
                None => None,
                Some(sizes) => if sizes.len() != type_interfaces::num_dynamic(shape) {
                    Some(AliasErr::IncorrectNumDynamicDims)
                } else if !ir::all_index(ctx, sizes) {
                    Some(AliasErr::InvalidDynamicDimOpdType)
                } else {
                    None
                },
            },
        }
    }
}

/// The shape of a type, if it has one.
pub open spec fn shape_of(ctx: Context, ty: TypeHandle) -> Option<Seq<Dimension>> {
    match ctx.as_tensor(ty) {
        Some(tensor) => Some(tensor.shape),
        None => match ctx.as_memref(ty) {
            Some(memref) => Some(memref.shape),
            None => None,
        },
    }
}

/// The alias at each index is wrong.
pub open spec fn wrong_alias_at<T: BufferizableOpInterface>(
    op: T,
    program: Program,
    ctx: Context,
    aliases: Seq<Alias>,
) -> spec_fn(int) -> bool {
    |j: int|
        alias_error(
            program,
            ctx,
            aliases[j],
            op.dynamic_sizes(aliases[j].operand.index as int),
        ) is Some
}

/// What is wrong with the first wrong alias that an operation declares.
pub open spec fn alias_verdict<T: BufferizableOpInterface>(
    op: T,
    program: Program,
    ctx: Context,
    aliases: Seq<Alias>,
) -> Result<(), AliasErr> {
    match search::first_where(aliases.len(), wrong_alias_at(op, program, ctx, aliases)) {
        Some(j) => Err(
            alias_error(
                program,
                ctx,
                aliases[j],
                op.dynamic_sizes(aliases[j].operand.index as int),
            )->Some_0,
        ),
        None => Ok(()),
    }
}

fn check_alias(
    program: &Program,
    ctx: &Context,
    alias: Alias,
    dynamic: &Option<Vec<Value>>,
) -> (r: Option<AliasErr>)
    requires
        program.wf(*ctx),
        program.has_use(alias.operand),
        alias.result < program.values@.len(),
        dynamic matches Some(sizes) ==> ctx.has_values(sizes@),
    ensures
        r == alias_error(
            *program,
            *ctx,
            alias,
            match *dynamic {
                Some(sizes) => Some(sizes@),
                None => None,
            },
        ),
{
    if let Err(error) = alias.verify(program) {
        return Some(error);
    }
    proof {
        assert(program.op_wf(program.ops@[alias.operand.op as int]));
        let value = program.def(alias.operand);
        assert(program.ops@[alias.operand.op as int].operands@[alias.operand.index as int]
            == value);
        assert(ctx.has(program.values@[value as int].ty));
    }
    let value: usize = program.ops[alias.operand.op].operands[alias.operand.index];
    let ty: TypeHandle = program.values[value].ty;
    let expected: usize = match (ctx.ranked_tensor(ty), ctx.ranked_memref(ty)) {
        (Some(tensor), _) => tensor.num_dynamic_dimensions(),
        (None, Some(memref)) => memref.num_dynamic_dimensions(),
        (None, None) => {
            return Some(AliasErr::InvalidOperandType);
        },
    };
    if let Some(sizes) = dynamic {
        if sizes.len() != expected {
            return Some(AliasErr::IncorrectNumDynamicDims);
        }
        if ir::find_non_index(ctx, sizes.as_slice()).is_some() {
            return Some(AliasErr::InvalidDynamicDimOpdType);
        }
    }
    None
}

/// Every alias that the operation declares is between an operand and a result of its own, the
/// operand has a shape, and the operation gives one size, of index type, for each dynamic
/// dimension of the operand, or none at all.
pub fn verify<T: BufferizableOpInterface>(
    op: &T,
    at: usize,
    results: &[usize],
    program: &Program,
    ctx: &Context,
) -> (r: Result<(), AliasErr>)
    requires
        program.wf(*ctx),
        results@.len() == op.num_results(),
        forall|j: int|
            0 <= j < op.aliases(at, results@).len() ==> program.has_use(
                (#[trigger] op.aliases(at, results@)[j]).operand,
            ) && op.aliases(at, results@)[j].result < program.values@.len(),
        forall|opd: int|
            (#[trigger] op.dynamic_sizes(opd)) matches Some(sizes) ==> ctx.has_values(sizes),
    ensures
        r == alias_verdict(*op, *program, *ctx, op.aliases(at, results@)),
{
    let aliases: Vec<Alias> = op.get_operand_result_aliases(at, results);
    let ghost wrong = wrong_alias_at(*op, *program, *ctx, aliases@);
    let mut j: usize = 0;
    while j < aliases.len()
        invariant
            j <= aliases@.len(),
            aliases@ == op.aliases(at, results@),
            wrong == wrong_alias_at(*op, *program, *ctx, aliases@),
            search::first_where(j as nat, wrong) is None,
            program.wf(*ctx),
            forall|j: int|
                0 <= j < op.aliases(at, results@).len() ==> program.has_use(
                    (#[trigger] op.aliases(at, results@)[j]).operand,
                ) && op.aliases(at, results@)[j].result < program.values@.len(),
            forall|opd: int|
                (#[trigger] op.dynamic_sizes(opd)) matches Some(sizes) ==> ctx.has_values(sizes),
        decreases aliases@.len() - j,
    {
        assert(aliases@[j as int] == op.aliases(at, results@)[j as int]);
        let dynamic = op.get_dynamic_dimensions(aliases[j].operand.index);
        if let Some(error) = check_alias(program, ctx, aliases[j], &dynamic) {
            proof {
                assert(wrong(j as int));
                assert(search::first_where((j + 1) as nat, wrong) == Some(j as int));
                search::lemma_first_where_stable((j + 1) as nat, aliases@.len(), wrong);
            }
            return Err(error);
        }
        assert(!wrong(j as int));
        j += 1;
    }
    Ok(())
}

/// What an operation says of itself for the analysis.
pub fn bufferization_info<T: BufferizableOpInterface>(
    op: &T,
    at: usize,
    results: &[usize],
) -> (r: BufferizationInfo)
    requires
        results@.len() == op.num_results(),
    ensures
        r.aliases@ == op.aliases(at, results@),
        r.writes@ == Seq::new(op.operands().len(), |i: int| op.writes(i)),
{
    let aliases: Vec<Alias> = op.get_operand_result_aliases(at, results);
    let mut writes: Vec<bool> = Vec::new();
    let n: usize = op.get_num_operands();
    let mut i: usize = 0;
    while i < n
        invariant
            i <= n == op.operands().len(),
            writes@ == Seq::new(i as nat, |k: int| op.writes(k)),
        decreases n - i,
    {
        writes.push(op.operand_bufferizes_to_memory_write(i));
        i += 1;
        assert(writes@ =~= Seq::new(i as nat, |k: int| op.writes(k)));
    }
    BufferizationInfo { aliases, writes }
}

} // verus!
