//! What the analysis takes to share a buffer, and what it copies.

use crate::ir::{Context, Value};
use crate::memref::type_interfaces;
use crate::search;
use crate::tensor::bufferize;
use crate::tensor::bufferize::{Alias, DefiningEntity, Program, ProgramOp, Successor, Use};
use crate::tensor::op_interfaces;
use crate::tensor::op_interfaces::BufferizableOpInterface;
use vstd::prelude::*;

verus! {

/// Some operation declares that an operand which is `a`, and which is not copied, shares a buffer
/// with the result `b`.
pub open spec fn declared_to_share(
    program: Program,
    copied: Set<(usize, usize)>,
    a: usize,
    b: usize,
) -> bool {
    exists|k: int, j: int|
        0 <= k < program.ops@.len() && program.ops@[k].bufferization is Some && 0 <= j
            < program.ops@[k].bufferization->0.aliases@.len() && is_alias_of(
            program,
            copied,
            #[trigger] program.ops@[k].bufferization->0.aliases@[j],
            a,
            b,
        )
}

/// The alias is one of `a` and `b`, and the operand is not copied.
pub open spec fn is_alias_of(
    program: Program,
    copied: Set<(usize, usize)>,
    alias: Alias,
    a: usize,
    b: usize,
) -> bool {
    &&& !copied.contains((alias.operand.op, alias.operand.index))
    &&& a == program.ops@[alias.operand.op as int].operands@[alias.operand.index as int]
    &&& b == alias.result
}

/// Some branch passes the tensor `a` to a block, whose argument there is `b`.
pub open spec fn passed_as(program: Program, ctx: Context, a: usize, b: usize) -> bool {
    exists|k: int, s: int, p: int|
        0 <= k < program.ops@.len() && program.ops@[k].is_branch && 0 <= s
            < program.ops@[k].successors@.len() && 0 <= p
            < program.ops@[k].successors@[s].operands@.len() && a
            == #[trigger] program.ops@[k].successors@[s].operands@[p] && ctx.as_tensor(
            program.values@[a as int].ty,
        ) is Some && b
            == program.blocks@[program.ops@[k].successors@[s].block as int].arguments@[p]
}

proof fn lemma_alias_edges(
    program: Program,
    aliases: Seq<Alias>,
    copied: Set<(usize, usize)>,
    n: nat,
    a: usize,
    b: usize,
)
    requires
        n <= aliases.len(),
    ensures
        bufferize::alias_edges(program, aliases, copied, n).contains((a, b)) <==> exists|j: int|
            0 <= j < n && is_alias_of(program, copied, #[trigger] aliases[j], a, b),
    decreases n,
{
    if n > 0 {
        lemma_alias_edges(program, aliases, copied, (n - 1) as nat, a, b);
        if is_alias_of(program, copied, aliases[n - 1], a, b) {
            assert(bufferize::alias_edges(program, aliases, copied, n).contains((a, b)));
        }
    }
}

/// A tensor among the first `n` that are passed is `a`, and the argument there is `b`.
spec fn argument_of(
    program: Program,
    ctx: Context,
    successor: Successor,
    p: int,
    a: usize,
    b: usize,
) -> bool {
    &&& a == successor.operands@[p]
    &&& ctx.as_tensor(program.values@[a as int].ty) is Some
    &&& b == program.blocks@[successor.block as int].arguments@[p]
}

proof fn lemma_argument_edges(
    program: Program,
    ctx: Context,
    successor: Successor,
    n: nat,
    a: usize,
    b: usize,
)
    ensures
        bufferize::argument_edges(program, ctx, successor, n).contains((a, b)) <==> exists|p: int|
            0 <= p < n && #[trigger] argument_of(program, ctx, successor, p, a, b),
    decreases n,
{
    if n > 0 {
        lemma_argument_edges(program, ctx, successor, (n - 1) as nat, a, b);
        if argument_of(program, ctx, successor, n - 1, a, b) {
            assert(bufferize::argument_edges(program, ctx, successor, n).contains((a, b)));
        }
        if bufferize::argument_edges(program, ctx, successor, n).contains((a, b))
            && !bufferize::argument_edges(program, ctx, successor, (n - 1) as nat).contains(
            (a, b),
        ) {
            assert(argument_of(program, ctx, successor, n - 1, a, b));
        }
    }
}

spec fn passed_by(
    program: Program,
    ctx: Context,
    op: ProgramOp,
    s: int,
    a: usize,
    b: usize,
) -> bool {
    exists|p: int|
        0 <= p < op.successors@[s].operands@.len() && #[trigger] argument_of(
            program,
            ctx,
            op.successors@[s],
            p,
            a,
            b,
        )
}

proof fn lemma_successor_edges(
    program: Program,
    ctx: Context,
    op: ProgramOp,
    n: nat,
    a: usize,
    b: usize,
)
    ensures
        bufferize::successor_edges(program, ctx, op, n).contains((a, b)) <==> exists|s: int|
            0 <= s < n && #[trigger] passed_by(program, ctx, op, s, a, b),
    decreases n,
{
    if n > 0 {
        lemma_successor_edges(program, ctx, op, (n - 1) as nat, a, b);
        let last = op.successors@[n - 1];
        lemma_argument_edges(program, ctx, last, last.operands@.len(), a, b);
        if passed_by(program, ctx, op, n - 1, a, b) {
            assert(bufferize::successor_edges(program, ctx, op, n).contains((a, b)));
        }
        if bufferize::argument_edges(program, ctx, last, last.operands@.len()).contains((a, b)) {
            assert(passed_by(program, ctx, op, n - 1, a, b));
        }
    }
}

spec fn shared_by(
    program: Program,
    ctx: Context,
    copied: Set<(usize, usize)>,
    k: int,
    a: usize,
    b: usize,
) -> bool {
    ||| program.ops@[k].bufferization matches Some(info) && exists|j: int|
        0 <= j < info.aliases@.len() && is_alias_of(
            program,
            copied,
            #[trigger] info.aliases@[j],
            a,
            b,
        )
    ||| program.ops@[k].is_branch && exists|s: int|
        0 <= s < program.ops@[k].successors@.len() && #[trigger] passed_by(
            program,
            ctx,
            program.ops@[k],
            s,
            a,
            b,
        )
}

proof fn lemma_edges_upto(
    program: Program,
    ctx: Context,
    copied: Set<(usize, usize)>,
    n: nat,
    a: usize,
    b: usize,
)
    ensures
        bufferize::edges_upto(program, ctx, copied, n).contains((a, b)) <==> exists|k: int|
            0 <= k < n && #[trigger] shared_by(program, ctx, copied, k, a, b),
    decreases n,
{
    if n > 0 {
        lemma_edges_upto(program, ctx, copied, (n - 1) as nat, a, b);
        let op = program.ops@[n - 1];
        if let Some(info) = op.bufferization {
            lemma_alias_edges(program, info.aliases@, copied, info.aliases@.len(), a, b);
        }
        lemma_successor_edges(program, ctx, op, op.successors@.len(), a, b);
        assert(bufferize::op_edges(program, ctx, op, copied).contains((a, b)) <==> shared_by(
            program,
            ctx,
            copied,
            n - 1,
            a,
            b,
        ));
    }
}

/// Two values are taken to share a buffer at once exactly if some operation declares it of an
/// operand that is not copied and a result, or some branch passes one to a block as the other.
pub proof fn law_what_shares(
    program: Program,
    ctx: Context,
    copied: Set<(usize, usize)>,
    a: usize,
    b: usize,
)
    ensures
        bufferize::edges(program, ctx, copied).contains((a, b)) <==> declared_to_share(
            program,
            copied,
            a,
            b,
        ) || passed_as(program, ctx, a, b),
{
    let n = program.ops@.len();
    lemma_edges_upto(program, ctx, copied, n, a, b);
    if bufferize::edges(program, ctx, copied).contains((a, b)) {
        let k = choose|k: int| 0 <= k < n && #[trigger] shared_by(program, ctx, copied, k, a, b);
        let op = program.ops@[k];
        if op.is_branch && exists|s: int|
            0 <= s < op.successors@.len() && #[trigger] passed_by(program, ctx, op, s, a, b) {
            let s = choose|s: int|
                0 <= s < op.successors@.len() && #[trigger] passed_by(program, ctx, op, s, a, b);
            let p = choose|p: int|
                0 <= p < op.successors@[s].operands@.len() && #[trigger] argument_of(
                    program,
                    ctx,
                    op.successors@[s],
                    p,
                    a,
                    b,
                );
            assert(a == program.ops@[k].successors@[s].operands@[p]);
        } else {
            let j = choose|j: int|
                0 <= j < op.bufferization->0.aliases@.len() && is_alias_of(
                    program,
                    copied,
                    #[trigger] op.bufferization->0.aliases@[j],
                    a,
                    b,
                );
            assert(is_alias_of(program, copied, program.ops@[k].bufferization->0.aliases@[j], a, b));
        }
    }
    if declared_to_share(program, copied, a, b) {
        let (k, j) = choose|k: int, j: int|
            0 <= k < program.ops@.len() && program.ops@[k].bufferization is Some && 0 <= j
                < program.ops@[k].bufferization->0.aliases@.len() && is_alias_of(
                program,
                copied,
                #[trigger] program.ops@[k].bufferization->0.aliases@[j],
                a,
                b,
            );
        assert(shared_by(program, ctx, copied, k, a, b));
    }
    if passed_as(program, ctx, a, b) {
        let (k, s, p) = choose|k: int, s: int, p: int|
            0 <= k < program.ops@.len() && program.ops@[k].is_branch && 0 <= s
                < program.ops@[k].successors@.len() && 0 <= p
                < program.ops@[k].successors@[s].operands@.len() && a
                == #[trigger] program.ops@[k].successors@[s].operands@[p] && ctx.as_tensor(
                program.values@[a as int].ty,
            ) is Some && b
                == program.blocks@[program.ops@[k].successors@[s].block as int].arguments@[p];
        assert(argument_of(program, ctx, program.ops@[k].successors@[s], p, a, b));
        assert(passed_by(program, ctx, program.ops@[k], s, a, b));
        assert(shared_by(program, ctx, copied, k, a, b));
    }
}

/// The operation that owns a value: the one that defines it, or the one whose region holds the
/// block that it is an argument of.
pub open spec fn owner(program: Program, v: usize) -> Option<usize> {
    match program.values@[v as int].definer {
        DefiningEntity::Op(op) => Some(op),
        DefiningEntity::Block(block) => program.blocks@[block as int].parent_op,
    }
}

/// An operation that takes part in bufferization says which of its values can be written. Of all
/// others, results can, and arguments of blocks cannot.
pub proof fn law_owners_decide(program: Program, v: usize)
    ensures
        ({
            let value = program.values@[v as int];
            let asked = owner(program, v) matches Some(op)
                && program.ops@[op as int].bufferization is Some;
            program.is_writable(v) <==> if asked {
                value.writable
            } else {
                value.definer is Op
            }
        }),
{
}

/// A tensor that aliases one result alone is not copied unless there is need: if it is written
/// through, then another operand is in its class, or some member of the class cannot be written,
/// or one that the operation does not define is live after the operation. Classes are those that
/// the decisions on the operations before leave.
pub proof fn law_copies_are_needed(program: Program, ctx: Context, u: Use)
    requires
        program.has_use(u),
        program.ops@[u.op as int].bufferization is Some,
        ({
            let op = program.ops@[u.op as int];
            let aliases = op.bufferization->0.aliases@;
            let shared = bufferize::edges(
                program,
                ctx,
                bufferize::decided(program, ctx, u.op as nat),
            );
            let value = program.def(u);
            &&& forall|i: int, j: int|
                0 <= i < j < aliases.len() ==> !((#[trigger] aliases[i]).operand == u && (
                #[trigger] aliases[j]).operand == u)
            &&& forall|i: int, j: int|
                0 <= i < aliases.len() && 0 <= j < aliases.len() && (#[trigger] aliases[i]).operand
                    == u && (#[trigger] aliases[j]).operand != u ==> aliases[i].result
                    != aliases[j].result
            &&& op.bufferization->0.writes@[u.index as int] ==> {
                &&& forall|i: int|
                    0 <= i < op.operands@.len() && i != u.index ==> !bufferize::connected(
                        shared,
                        value,
                        #[trigger] op.operands@[i],
                    )
                &&& forall|v: usize| #[trigger]
                    bufferize::connected(shared, value, v) ==> program.is_writable(v) && (
                    op.live_after@.contains(v) ==> program.values@[v as int].definer
                        == DefiningEntity::Op(u.op))
            }
        }),
    ensures
        !bufferize::decided(program, ctx, program.ops@.len()).contains(u.pair()),
{
    bufferize::law_decision(program, ctx, u, program.ops@.len());
    let aliases = program.ops@[u.op as int].bufferization->0.aliases@;
    lemma_one_alias(aliases, u, aliases.len());
    assert(aliases.take(aliases.len() as int) =~= aliases);
}

proof fn lemma_one_alias(aliases: Seq<Alias>, u: Use, n: nat)
    requires
        n <= aliases.len(),
        forall|i: int, j: int|
            0 <= i < j < aliases.len() ==> !((#[trigger] aliases[i]).operand == u && (
            #[trigger] aliases[j]).operand == u),
    ensures
        bufferize::aliases_of(aliases.take(n as int), u).len() <= 1,
        bufferize::aliases_of(aliases.take(n as int), u).len() == 1 ==> exists|i: int|
            0 <= i < n && (#[trigger] aliases[i]).operand == u,
    decreases n,
{
    reveal(Seq::filter);
    if n > 0 {
        lemma_one_alias(aliases, u, (n - 1) as nat);
        assert(aliases.take(n as int).drop_last() =~= aliases.take(n - 1));
        assert(aliases.take(n as int).last() == aliases[n - 1]);
    }
}

/// A tensor that aliases two results, or a result that another operand aliases too, is copied.
pub proof fn law_ambiguous_aliases_are_copied(program: Program, ctx: Context, u: Use, i: int, j: int)
    requires
        program.has_use(u),
        program.is_tensor(ctx, program.def(u)),
        program.ops@[u.op as int].bufferization is Some,
        ({
            let aliases = program.ops@[u.op as int].bufferization->0.aliases@;
            &&& 0 <= i < aliases.len() && 0 <= j < aliases.len() && i != j
            &&& aliases[i].operand == u
            &&& aliases[j].operand == u || aliases[j].result == aliases[i].result
        }),
    ensures
        bufferize::decided(program, ctx, program.ops@.len()).contains(u.pair()),
{
    bufferize::law_decision(program, ctx, u, program.ops@.len());
    let aliases = program.ops@[u.op as int].bufferization->0.aliases@;
    lemma_two_aliases(aliases, u, aliases.len(), i, j);
    assert(aliases.take(aliases.len() as int) =~= aliases);
}

proof fn lemma_two_aliases(aliases: Seq<Alias>, u: Use, n: nat, i: int, j: int)
    requires
        n <= aliases.len(),
        0 <= i < aliases.len(),
        0 <= j < aliases.len(),
        i != j,
        aliases[i].operand == u,
    ensures
        i < n ==> bufferize::aliases_of(aliases.take(n as int), u).len() >= 1,
        i < n && j < n && aliases[j].operand == u ==> bufferize::aliases_of(
            aliases.take(n as int),
            u,
        ).len() >= 2,
    decreases n,
{
    reveal(Seq::filter);
    if n > 0 {
        lemma_two_aliases(aliases, u, (n - 1) as nat, i, j);
        if aliases[j].operand == u {
            lemma_two_aliases(aliases, u, (n - 1) as nat, j, i);
        }
        assert(aliases.take(n as int).drop_last() =~= aliases.take(n - 1));
        assert(aliases.take(n as int).last() == aliases[n - 1]);
    }
}

/// An operand is copied before it is passed on exactly if it is a tensor and some successor gets
/// it that it is live in or that gets it twice. Where it is not known what is passed to which
/// successor, every tensor is copied.
pub proof fn law_successor_copies(program: Program, ctx: Context, u: Use)
    requires
        program.has_use(u),
    ensures
        ({
            let op = program.ops@[u.op as int];
            let value = op.operands@[u.index as int];
            let tensor = ctx.as_tensor(program.values@[value as int].ty) is Some;
            bufferize::needs_successor_copy(program, ctx, u) <==> tensor && if op.is_branch {
                exists|s: int, p: int|
                    0 <= s < op.successors@.len() && 0 <= p < op.successors@[s].operands@.len()
                        && #[trigger] op.successors@[s].operands@[p] == value && (
                    program.blocks@[op.successors@[s].block as int].live_in@.contains(value)
                        || exists|q: int|
                        0 <= q < op.successors@[s].operands@.len() && q != p
                            && #[trigger] op.successors@[s].operands@[q] == value)
            } else {
                op.successors@.len() > 0
            }
        }),
{
    let op = program.ops@[u.op as int];
    let value = op.operands@[u.index as int];
    if op.is_branch {
        if bufferize::needs_successor_copy(program, ctx, u) {
            let s = choose|s: int|
                0 <= s < op.successors@.len() && bufferize::passed_unsafely(
                    program,
                    #[trigger] op.successors@[s],
                    value,
                );
            let target = op.successors@[s];
            if program.blocks@[target.block as int].live_in@.contains(value) {
                let p = choose|p: int| 0 <= p < target.operands@.len() && target.operands@[p] == value;
                assert(op.successors@[s].operands@[p] == value);
            } else {
                let (p, q) = choose|p: int, q: int|
                    0 <= p < q < target.operands@.len() && #[trigger] target.operands@[p] == value
                        && #[trigger] target.operands@[q] == value;
                assert(op.successors@[s].operands@[p] == value);
                assert(op.successors@[s].operands@[q] == value);
            }
        }
        assert forall|s: int, p: int|
            0 <= s < op.successors@.len() && 0 <= p < op.successors@[s].operands@.len()
                && #[trigger] op.successors@[s].operands@[p] == value && (
            program.blocks@[op.successors@[s].block as int].live_in@.contains(value) || exists|
                q: int,
            |
                0 <= q < op.successors@[s].operands@.len() && q != p
                    && #[trigger] op.successors@[s].operands@[q] == value) implies bufferize::passed_unsafely(
            program,
            op.successors@[s],
            value,
        ) by {
            let target = op.successors@[s];
            assert(target.operands@.contains(value));
            if !program.blocks@[target.block as int].live_in@.contains(value) {
                let q = choose|q: int|
                    0 <= q < target.operands@.len() && q != p && #[trigger] target.operands@[q]
                        == value;
                if p < q {
                    assert(target.operands@[p] == value && target.operands@[q] == value);
                } else {
                    assert(target.operands@[q] == value && target.operands@[p] == value);
                }
            }
        }
    }
}

/// The aliases of an operation are valid exactly if each is between an operand with a shape and a
/// result of the operation itself, and the operation, where it knows the sizes of the operand,
/// gives one, of index type, for each dynamic dimension.
pub proof fn law_aliases_verify<T: BufferizableOpInterface>(
    op: T,
    program: Program,
    ctx: Context,
    aliases: Seq<Alias>,
)
    ensures
        op_interfaces::alias_verdict(op, program, ctx, aliases) is Ok <==> forall|j: int|
            0 <= j < aliases.len() ==> alias_fits(
                program,
                ctx,
                #[trigger] aliases[j],
                op.dynamic_sizes(aliases[j].operand.index as int),
            ),
{
    let wrong = op_interfaces::wrong_alias_at(op, program, ctx, aliases);
    search::lemma_first_where(aliases.len(), wrong);
    assert forall|j: int| 0 <= j < aliases.len() implies (wrong(j) <==> !alias_fits(
        program,
        ctx,
        #[trigger] aliases[j],
        op.dynamic_sizes(aliases[j].operand.index as int),
    )) by {
        let value = program.ops@[aliases[j].operand.op as int].operands@[aliases[j].operand.index as int];
        let ty = program.values@[value as int].ty;
        if let Some(tensor) = ctx.as_tensor(ty) {
            type_interfaces::law_num_dynamic(tensor.shape);
        }
        if let Some(memref) = ctx.as_memref(ty) {
            type_interfaces::law_num_dynamic(memref.shape);
        }
    }
}

/// The alias is between an operand with a shape and a result of the same operation, and the sizes
/// fit the shape.
pub open spec fn alias_fits(
    program: Program,
    ctx: Context,
    alias: Alias,
    sizes: Option<Seq<Value>>,
) -> bool {
    let value = program.ops@[alias.operand.op as int].operands@[alias.operand.index as int];
    let ty = program.values@[value as int].ty;
    let shape = match ctx.as_tensor(ty) {
        Some(tensor) => tensor.shape,
        None => ctx.as_memref(ty)->0.shape,
    };
    &&& program.values@[alias.result as int].definer == DefiningEntity::Op(alias.operand.op)
    &&& ctx.as_tensor(ty) is Some || ctx.as_memref(ty) is Some
    &&& sizes matches Some(sizes) ==> {
        &&& sizes.len() == type_interfaces::dynamic_only(shape).len()
        &&& forall|i: int| 0 <= i < sizes.len() ==> ctx.get((#[trigger] sizes[i]).ty) is Index
    }
}

} // verus!
