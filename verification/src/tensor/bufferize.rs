//! From tensors, which are values, to memrefs, which are storage.
//!
//! Every operation on tensors makes a new tensor. Giving each of them a buffer of its own is
//! correct but wasteful: often a result can take over the buffer of an operand. This module
//! decides when it can.
//!
//! Tensor values may share a buffer as long as none of them can observe a write through
//! another. At every write in place,
//!
//! 1. no value that shares the buffer is live after the operation, other than the values
//!    that the operation itself defines, and
//! 2. no other operand of the operation shares the buffer.
//!
//! Reads never need a buffer of their own.
//!
//! Values come to share a buffer in two ways. An operation may declare that an operand and a
//! result alias, and a value that is passed to a successor block shares its buffer with the
//! argument of the block. An operation that writes has to write through an operand that
//! aliases the result, or into a buffer that it allocates itself.

use crate::collections;
use crate::ir::{Context, TypeHandle, Value};
use crate::memref;
use crate::memref::type_interfaces;
use crate::memref::type_interfaces::Dimension;
use crate::plan;
use crate::plan::{Ref, Step, StepOf, StepView};
use crate::search;
use crate::tensor::conversions;
pub use crate::tensor::op_interfaces::BufferizableOpInterface;
use pliron::utils::union_find::UnionFind;
use rustc_hash::FxHashSet;
use vstd::prelude::*;

verus! {

/// Whether an alias may or must be one.
#[derive(Clone, Copy, Debug, PartialEq, Eq, Structural)]
pub enum AliasKind {
    May,
    Must,
}

/// How the buffer of an operand relates to that of a result.
#[derive(Clone, Copy, Debug, PartialEq, Eq, Structural)]
pub enum BufferRelation {
    /// Not known.
    Unknown,
    /// The buffer of the operand may contain that of the result.
    Contains,
    /// The buffers are the same.
    Equivalent,
}

impl Default for BufferRelation {
    fn default() -> (r: Self)
        ensures
            r == BufferRelation::Unknown,
    {
        BufferRelation::Unknown
    }
}

/// An operand of an operation: the use of a value.
#[derive(Clone, Copy, Debug, PartialEq, Eq, Structural)]
pub struct Use {
    pub op: usize,
    pub index: usize,
}

impl Use {
    pub open spec fn pair(self) -> (usize, usize) {
        (self.op, self.index)
    }
}

/// An operand and a result of an operation that may share a buffer.
#[derive(Clone, Copy, Debug, PartialEq, Eq, Structural)]
pub struct Alias {
    pub operand: Use,
    pub result: usize,
    pub kind: AliasKind,
    pub relation: BufferRelation,
}

#[derive(Clone, Copy, Debug, PartialEq, Eq, Structural)]
pub enum AliasErr {
    InvalidAlias,
    IncorrectNumDynamicDims,
    InvalidDynamicDimOpdType,
    InvalidOperandType,
}

/// What defines a value.
#[derive(Clone, Copy, Debug, PartialEq, Eq, Structural)]
pub enum DefiningEntity {
    /// The value is a result of the operation.
    Op(usize),
    /// The value is an argument of the block.
    Block(usize),
}

/// A value of a program.
#[derive(Clone, Copy, Debug, PartialEq, Eq, Structural)]
pub struct ValueDef {
    pub ty: TypeHandle,
    pub definer: DefiningEntity,
    /// Whether the operation that owns the value says that it can be written in place. Only
    /// asked if that operation takes part in bufferization.
    pub writable: bool,
}

/// A successor of an operation, with the values that are passed to it.
#[derive(Debug)]
pub struct Successor {
    pub block: usize,
    pub operands: Vec<usize>,
}

/// What an operation that takes part in bufferization says of itself.
#[derive(Debug)]
pub struct BufferizationInfo {
    /// The operands and results that share a buffer.
    pub aliases: Vec<Alias>,
    /// Whether the operation writes to the buffer of each operand.
    pub writes: Vec<bool>,
}

/// An operation of a program.
#[derive(Debug)]
pub struct ProgramOp {
    pub operands: Vec<usize>,
    pub successors: Vec<Successor>,
    /// Whether it is known which operands are passed to which successor.
    pub is_branch: bool,
    /// There if the operation takes part in bufferization.
    pub bufferization: Option<BufferizationInfo>,
    /// The values that are live just after the operation.
    pub live_after: Vec<usize>,
}

/// A block of a program.
#[derive(Debug)]
pub struct ProgramBlock {
    pub parent_op: Option<usize>,
    pub arguments: Vec<usize>,
    /// The values that are live where the block begins.
    pub live_in: Vec<usize>,
}

/// A program. Values, operations and blocks are named by their positions; operations stand
/// in program order.
#[derive(Debug)]
pub struct Program {
    pub values: Vec<ValueDef>,
    pub ops: Vec<ProgramOp>,
    pub blocks: Vec<ProgramBlock>,
}

impl Program {
    pub open spec fn has_use(&self, u: Use) -> bool {
        u.op < self.ops@.len() && u.index < self.ops@[u.op as int].operands@.len()
    }

    /// The value that an operand is.
    pub open spec fn def(&self, u: Use) -> usize {
        self.ops@[u.op as int].operands@[u.index as int]
    }

    /// The names in an operation are those of the program.
    pub open spec fn op_wf(&self, op: ProgramOp) -> bool {
        &&& forall|i: int|
            0 <= i < op.operands@.len() ==> #[trigger] op.operands@[i] < self.values@.len()
        &&& forall|s: int|
            0 <= s < op.successors@.len() ==> self.successor_wf(#[trigger] op.successors@[s])
        &&& op.bufferization matches Some(info) ==> {
            &&& info.writes@.len() == op.operands@.len()
            &&& forall|j: int|
                0 <= j < info.aliases@.len() ==> self.has_use((#[trigger] info.aliases@[j]).operand)
                    && info.aliases@[j].result < self.values@.len()
        }
    }

    /// The names in a successor are those of the program, and the block has an argument for
    /// each value that is passed to it.
    pub open spec fn successor_wf(&self, successor: Successor) -> bool {
        &&& successor.block < self.blocks@.len()
        &&& successor.operands@.len() <= self.blocks@[successor.block as int].arguments@.len()
        &&& forall|p: int|
            0 <= p < successor.operands@.len() ==> #[trigger] successor.operands@[p]
                < self.values@.len()
    }

    /// All names are those of the program.
    pub open spec fn wf(&self, ctx: Context) -> bool {
        &&& forall|v: int| 0 <= v < self.values@.len() ==> ctx.has((#[trigger] self.values@[v]).ty)
        &&& forall|v: int|
            0 <= v < self.values@.len() ==> match (#[trigger] self.values@[v]).definer {
                DefiningEntity::Op(op) => op < self.ops@.len(),
                DefiningEntity::Block(block) => block < self.blocks@.len(),
            }
        &&& forall|k: int| 0 <= k < self.ops@.len() ==> self.op_wf(#[trigger] self.ops@[k])
        &&& forall|b: int|
            0 <= b < self.blocks@.len() ==> self.block_wf(#[trigger] self.blocks@[b])
    }

    pub open spec fn block_wf(&self, block: ProgramBlock) -> bool {
        &&& block.parent_op matches Some(op) ==> op < self.ops@.len()
        &&& forall|p: int|
            0 <= p < block.arguments@.len() ==> #[trigger] block.arguments@[p] < self.values@.len()
    }

    /// The value is a tensor, which a memref can stand for.
    pub open spec fn is_tensor(&self, ctx: Context, v: usize) -> bool {
        ctx.as_tensor(self.values@[v as int].ty) is Some
    }

    /// The value can be written in place.
    pub open spec fn is_writable(&self, v: usize) -> bool {
        let value = self.values@[v as int];
        match value.definer {
            DefiningEntity::Op(op) => self.ops@[op as int].bufferization is Some ==> value.writable,
            DefiningEntity::Block(block) => match self.blocks@[block as int].parent_op {
                Some(op) => self.ops@[op as int].bufferization is Some && value.writable,
                None => false,
            },
        }
    }
}

/// The aliases of an operand.
pub open spec fn aliases_of(aliases: Seq<Alias>, opd: Use) -> Seq<Alias> {
    aliases.filter(|alias: Alias| alias.operand == opd)
}

/// The operand aliases a result that another operand aliases too.
pub open spec fn shares_result(aliases: Seq<Alias>, opd: Use) -> bool {
    exists|i: int, j: int|
        0 <= i < aliases.len() && 0 <= j < aliases.len() && (#[trigger] aliases[i]).operand == opd
            && (#[trigger] aliases[j]).operand != opd && aliases[i].result == aliases[j].result
}

impl Alias {
    /// All aliases of `opd`.
    pub fn get_aliases_for_operand(aliases: &[Alias], opd: Use) -> (r: Vec<Alias>)
        ensures
            r@ == aliases_of(aliases@, opd),
    {
        let ghost keep = |alias: Alias| alias.operand == opd;
        let mut found: Vec<Alias> = Vec::new();
        let mut i: usize = 0;
        proof {
            reveal(Seq::filter);
            assert(aliases@.take(0) =~= Seq::<Alias>::empty());
        }
        while i < aliases.len()
            invariant
                i <= aliases@.len(),
                keep == (|alias: Alias| alias.operand == opd),
                found@ == aliases@.take(i as int).filter(keep),
            decreases aliases@.len() - i,
        {
            proof {
                reveal(Seq::filter);
                assert(aliases@.take(i + 1).drop_last() =~= aliases@.take(i as int));
            }
            if aliases[i].operand == opd {
                found.push(aliases[i]);
            }
            i += 1;
        }
        assert(aliases@.take(aliases@.len() as int) =~= aliases@);
        found
    }

    /// All aliases of the result `res`.
    pub fn get_aliases_for_result(aliases: &[Alias], res: usize) -> (r: Vec<Alias>)
        ensures
            r@ == aliases@.filter(|alias: Alias| alias.result == res),
    {
        let ghost keep = |alias: Alias| alias.result == res;
        let mut found: Vec<Alias> = Vec::new();
        let mut i: usize = 0;
        proof {
            reveal(Seq::filter);
            assert(aliases@.take(0) =~= Seq::<Alias>::empty());
        }
        while i < aliases.len()
            invariant
                i <= aliases@.len(),
                keep == (|alias: Alias| alias.result == res),
                found@ == aliases@.take(i as int).filter(keep),
            decreases aliases@.len() - i,
        {
            proof {
                reveal(Seq::filter);
                assert(aliases@.take(i + 1).drop_last() =~= aliases@.take(i as int));
            }
            if aliases[i].result == res {
                found.push(aliases[i]);
            }
            i += 1;
        }
        assert(aliases@.take(aliases@.len() as int) =~= aliases@);
        found
    }

    /// Whether `opd` aliases more than one result.
    pub fn operand_aliases_with_multiple_results(aliases: &[Alias], opd: Use) -> (r: bool)
        ensures
            r == (aliases_of(aliases@, opd).len() > 1),
    {
        Self::get_aliases_for_operand(aliases, opd).len() > 1
    }

    /// Whether `opd` aliases a result that another operand aliases too.
    pub fn operand_aliases_with_other_operands(aliases: &[Alias], opd: Use) -> (r: bool)
        ensures
            r == shares_result(aliases@, opd),
    {
        let mut i: usize = 0;
        while i < aliases.len()
            invariant
                i <= aliases@.len(),
                forall|a: int, b: int|
                    0 <= a < i && 0 <= b < aliases@.len() && (#[trigger] aliases@[a]).operand
                        == opd && (#[trigger] aliases@[b]).operand != opd ==> aliases@[a].result
                        != aliases@[b].result,
            decreases aliases@.len() - i,
        {
            if aliases[i].operand == opd {
                let mut j: usize = 0;
                while j < aliases.len()
                    invariant
                        i < aliases@.len(),
                        j <= aliases@.len(),
                        aliases@[i as int].operand == opd,
                        forall|b: int|
                            0 <= b < j && (#[trigger] aliases@[b]).operand != opd
                                ==> aliases@[i as int].result != aliases@[b].result,
                    decreases aliases@.len() - j,
                {
                    if aliases[j].operand != opd && aliases[j].result == aliases[i].result {
                        assert(aliases@[i as int].operand == opd && aliases@[j as int].operand
                            != opd);
                        return true;
                    }
                    j += 1;
                }
            }
            i += 1;
        }
        false
    }

    /// The operand and the result belong to the same operation.
    pub fn verify(&self, program: &Program) -> (r: Result<(), AliasErr>)
        requires
            self.result < program.values@.len(),
        ensures
            r == if program.values@[self.result as int].definer == DefiningEntity::Op(
                self.operand.op,
            ) {
                Ok::<(), AliasErr>(())
            } else {
                Err(AliasErr::InvalidAlias)
            },
    {
        match program.values[self.result].definer {
            DefiningEntity::Op(op) => if op == self.operand.op {
                Ok(())
            } else {
                Err(AliasErr::InvalidAlias)
            },
            DefiningEntity::Block(_) => Err(AliasErr::InvalidAlias),
        }
    }
}

/// Whether `value` can be written in place. The operation that owns the value decides: the
/// one that defines it, or the one whose region holds the block that it is an argument of.
///
/// If that operation takes no part in bufferization, its results can be written and the
/// arguments of its blocks cannot.
pub fn is_value_writable(program: &Program, ctx: &Context, value: usize) -> (r: bool)
    requires
        program.wf(*ctx),
        value < program.values@.len(),
    ensures
        r == program.is_writable(value),
{
    let def: ValueDef = program.values[value];
    assert(program.values@[value as int] == def);
    match def.definer {
        DefiningEntity::Op(op) => program.ops[op].bufferization.is_none() || def.writable,
        DefiningEntity::Block(block) => {
            assert(program.block_wf(program.blocks@[block as int]));
            match program.blocks[block].parent_op {
                Some(op) => program.ops[op].bufferization.is_some() && def.writable,
                None => false,
            }
        },
    }
}

// Buffer classes
/// A relation that is reflexive, symmetric and transitive.
pub open spec fn equivalence(r: spec_fn(usize, usize) -> bool) -> bool {
    &&& forall|a: usize| #[trigger] r(a, a)
    &&& forall|a: usize, b: usize| #[trigger] r(a, b) ==> r(b, a)
    &&& forall|a: usize, b: usize, c: usize| #[trigger] r(a, b) && #[trigger] r(b, c) ==> r(a, c)
}

/// A relation holds of all pairs.
pub open spec fn holds_of(r: spec_fn(usize, usize) -> bool, edges: Set<(usize, usize)>) -> bool {
    forall|a: usize, b: usize| edges.contains((a, b)) ==> #[trigger] r(a, b)
}

/// Two values are in one class: every equivalence relation that holds of the edges holds of
/// them.
pub open spec fn connected(edges: Set<(usize, usize)>, a: usize, b: usize) -> bool {
    forall|r: spec_fn(usize, usize) -> bool|
        equivalence(r) && #[trigger] holds_of(r, edges) ==> r(a, b)
}

/// The pairs of values that the first `n` aliases make share a buffer. An operand that is
/// copied shares none.
pub open spec fn alias_edges(
    program: Program,
    aliases: Seq<Alias>,
    copied: Set<(usize, usize)>,
    n: nat,
) -> Set<(usize, usize)>
    decreases n,
{
    if n == 0 {
        Set::empty()
    } else {
        let edges = alias_edges(program, aliases, copied, (n - 1) as nat);
        let alias = aliases[n - 1];
        if copied.contains(alias.operand.pair()) {
            edges
        } else {
            edges.insert((program.def(alias.operand), alias.result))
        }
    }
}

/// The pairs of values that share a buffer because one of the first `n` values that are
/// passed to a block becomes an argument of the block.
pub open spec fn argument_edges(
    program: Program,
    ctx: Context,
    successor: Successor,
    n: nat,
) -> Set<(usize, usize)>
    decreases n,
{
    if n == 0 {
        Set::empty()
    } else {
        let edges = argument_edges(program, ctx, successor, (n - 1) as nat);
        let value = successor.operands@[n - 1];
        if program.is_tensor(ctx, value) {
            edges.insert((value, program.blocks@[successor.block as int].arguments@[n - 1]))
        } else {
            edges
        }
    }
}

/// The pairs of values that share a buffer because of the first `n` successors.
pub open spec fn successor_edges(program: Program, ctx: Context, op: ProgramOp, n: nat) -> Set<
    (usize, usize),
>
    decreases n,
{
    if n == 0 {
        Set::empty()
    } else {
        successor_edges(program, ctx, op, (n - 1) as nat).union(
            argument_edges(
                program,
                ctx,
                op.successors@[n - 1],
                op.successors@[n - 1].operands@.len(),
            ),
        )
    }
}

/// The pairs of values that an operation declares to share a buffer.
pub open spec fn declared_edges(
    program: Program,
    op: ProgramOp,
    copied: Set<(usize, usize)>,
) -> Set<(usize, usize)> {
    match op.bufferization {
        Some(info) => alias_edges(program, info.aliases@, copied, info.aliases@.len()),
        None => Set::empty(),
    }
}

/// The pairs of values that share a buffer because of an operation.
pub open spec fn op_edges(
    program: Program,
    ctx: Context,
    op: ProgramOp,
    copied: Set<(usize, usize)>,
) -> Set<(usize, usize)> {
    let passed = if op.is_branch {
        successor_edges(program, ctx, op, op.successors@.len())
    } else {
        Set::empty()
    };
    declared_edges(program, op, copied).union(passed)
}

/// The pairs of values that share a buffer because of the first `n` operations, if the
/// operands in `copied` are copied.
pub open spec fn edges_upto(
    program: Program,
    ctx: Context,
    copied: Set<(usize, usize)>,
    n: nat,
) -> Set<(usize, usize)>
    decreases n,
{
    if n == 0 {
        Set::empty()
    } else {
        edges_upto(program, ctx, copied, (n - 1) as nat).union(
            op_edges(program, ctx, program.ops@[n - 1], copied),
        )
    }
}

/// The pairs of values that share a buffer, if the operands in `copied` are copied.
pub open spec fn edges(program: Program, ctx: Context, copied: Set<(usize, usize)>) -> Set<
    (usize, usize),
> {
    edges_upto(program, ctx, copied, program.ops@.len())
}

/// `roots` names a representative for each class of `edges`.
pub open spec fn represents(roots: Map<usize, usize>, edges: Set<(usize, usize)>) -> bool {
    &&& forall|k: usize| #[trigger]
        roots.dom().contains(k) ==> roots.dom().contains(roots[k]) && roots[roots[k]] == roots[k]
            && connected(edges, k, roots[k])
    &&& forall|a: usize, b: usize| #[trigger]
        edges.contains((a, b)) ==> roots.dom().contains(a) && roots.dom().contains(b) && roots[a]
            == roots[b]
}

proof fn lemma_connected_reflexive(edges: Set<(usize, usize)>, a: usize)
    ensures
        connected(edges, a, a),
{
}

pub proof fn lemma_connected_symmetric(edges: Set<(usize, usize)>, a: usize, b: usize)
    requires
        connected(edges, a, b),
    ensures
        connected(edges, b, a),
{
    assert forall|r: spec_fn(usize, usize) -> bool|
        equivalence(r) && #[trigger] holds_of(r, edges) implies r(b, a) by {
        assert(r(a, b));
    }
}

proof fn lemma_connected_transitive(edges: Set<(usize, usize)>, a: usize, b: usize, c: usize)
    requires
        connected(edges, a, b),
        connected(edges, b, c),
    ensures
        connected(edges, a, c),
{
    assert forall|r: spec_fn(usize, usize) -> bool|
        equivalence(r) && #[trigger] holds_of(r, edges) implies r(a, c) by {
        assert(r(a, b));
        assert(r(b, c));
    }
}

proof fn lemma_connected_edge(edges: Set<(usize, usize)>, a: usize, b: usize)
    requires
        edges.contains((a, b)),
    ensures
        connected(edges, a, b),
{
}

/// Fewer edges connect fewer values.
pub proof fn lemma_connected_monotone(
    fewer: Set<(usize, usize)>,
    more: Set<(usize, usize)>,
    a: usize,
    b: usize,
)
    requires
        fewer.subset_of(more),
        connected(fewer, a, b),
    ensures
        connected(more, a, b),
{
    assert forall|r: spec_fn(usize, usize) -> bool|
        equivalence(r) && #[trigger] holds_of(r, more) implies r(a, b) by {
        assert(holds_of(r, fewer));
    }
}

/// Two values that the structure has seen have one representative exactly if they are in one
/// class.
proof fn lemma_same_root(
    roots: Map<usize, usize>,
    edges: Set<(usize, usize)>,
    a: usize,
    b: usize,
)
    requires
        represents(roots, edges),
        roots.dom().contains(a),
        roots.dom().contains(b),
    ensures
        roots[a] == roots[b] <==> connected(edges, a, b),
{
    if roots[a] == roots[b] {
        lemma_connected_symmetric(edges, b, roots[b]);
        lemma_connected_transitive(edges, a, roots[a], b);
    }
    if connected(edges, a, b) {
        lemma_class_is_seen(roots, edges, a, b);
    }
}

/// What is in one class with a value that the structure has seen, it has seen too.
proof fn lemma_class_is_seen(
    roots: Map<usize, usize>,
    edges: Set<(usize, usize)>,
    a: usize,
    b: usize,
)
    requires
        represents(roots, edges),
        roots.dom().contains(a),
        connected(edges, a, b),
    ensures
        roots.dom().contains(b),
        roots[a] == roots[b],
{
    let r = |x: usize, y: usize|
        x == y || (roots.dom().contains(x) && roots.dom().contains(y) && roots[x] == roots[y]);
    assert(equivalence(r));
    assert(holds_of(r, edges));
    assert(r(a, b));
}

proof fn lemma_represents_with_value(
    roots: Map<usize, usize>,
    edges: Set<(usize, usize)>,
    v: usize,
)
    requires
        represents(roots, edges),
    ensures
        represents(collections::with_value(roots, v), edges),
{
    let after = collections::with_value(roots, v);
    assert forall|k: usize| #[trigger] after.dom().contains(k) implies after.dom().contains(
        after[k],
    ) && after[after[k]] == after[k] && connected(edges, k, after[k]) by {
        if !roots.dom().contains(k) {
            lemma_connected_reflexive(edges, k);
        } else {
            assert(roots.dom().contains(roots[k]));
        }
    }
}

proof fn lemma_represents_merged(
    roots: Map<usize, usize>,
    edges: Set<(usize, usize)>,
    a: usize,
    b: usize,
    root: usize,
)
    requires
        represents(roots, edges),
        roots.dom().contains(a),
        roots.dom().contains(b),
        root == roots[a] || root == roots[b],
    ensures
        represents(
            collections::merged(roots, roots[a], roots[b], root),
            edges.insert((a, b)),
        ),
{
    let more = edges.insert((a, b));
    let after = collections::merged(roots, roots[a], roots[b], root);
    assert(roots.dom().contains(roots[a]) && roots.dom().contains(roots[b]));
    assert(connected(more, roots[a], roots[b])) by {
        lemma_connected_monotone(edges, more, a, roots[a]);
        lemma_connected_monotone(edges, more, b, roots[b]);
        lemma_connected_symmetric(more, a, roots[a]);
        lemma_connected_edge(more, a, b);
        lemma_connected_transitive(more, roots[a], a, b);
        lemma_connected_transitive(more, roots[a], b, roots[b]);
    }
    lemma_connected_symmetric(more, roots[a], roots[b]);
    lemma_connected_reflexive(more, root);
    assert forall|k: usize| #[trigger] after.dom().contains(k) implies after.dom().contains(
        after[k],
    ) && after[after[k]] == after[k] && connected(more, k, after[k]) by {
        assert(roots.dom().contains(k));
        assert(roots.dom().contains(roots[k]));
        lemma_connected_monotone(edges, more, k, roots[k]);
        if roots[k] == roots[a] || roots[k] == roots[b] {
            lemma_connected_transitive(more, k, roots[k], root);
        }
    }
    assert forall|x: usize, y: usize| #[trigger] more.contains((x, y)) implies after.dom().contains(
        x,
    ) && after.dom().contains(y) && after[x] == after[y] by {
        if edges.contains((x, y)) {
            assert(roots.dom().contains(x));
        }
    }
}

/// Joins the classes of two values.
fn join(uf: &mut UnionFind<usize>, a: usize, b: usize, edges: Ghost<Set<(usize, usize)>>)
    requires
        represents(collections::roots(*old(uf)), edges@),
    ensures
        represents(collections::roots(*final(uf)), edges@.insert((a, b))),
{
    let ghost before = collections::roots(*uf);
    collections::union(uf, a, b);
    proof {
        let seen = collections::with_value(collections::with_value(before, a), b);
        lemma_represents_with_value(before, edges@, a);
        lemma_represents_with_value(collections::with_value(before, a), edges@, b);
        let root = choose|root: usize|
            (root == seen[a] || root == seen[b]) && collections::roots(*uf)
                == #[trigger] collections::merged(seen, seen[a], seen[b], root);
        lemma_represents_merged(seen, edges@, a, b, root);
    }
}

/// Whether `v` is among `values`.
fn among(values: &Vec<usize>, v: usize) -> (r: bool)
    ensures
        r == values@.contains(v),
{
    let mut i: usize = 0;
    while i < values.len()
        invariant
            i <= values@.len(),
            forall|k: int| 0 <= k < i ==> values@[k] != v,
        decreases values@.len() - i,
    {
        if values[i] == v {
            assert(values@[i as int] == v);
            return true;
        }
        i += 1;
    }
    false
}

/// Whether `v` is a tensor, which a memref can stand for.
fn is_tensor(program: &Program, ctx: &Context, v: usize) -> (r: bool)
    requires
        program.wf(*ctx),
        v < program.values@.len(),
    ensures
        r == program.is_tensor(*ctx, v),
{
    assert(ctx.has(program.values@[v as int].ty));
    ctx.ranked_tensor(program.values[v].ty).is_some()
}

// Values that are passed to successors
/// A value is among those passed to a successor, and it is live where the successor begins
/// or is passed twice.
pub open spec fn passed_unsafely(program: Program, successor: Successor, value: usize) -> bool {
    &&& successor.operands@.contains(value)
    &&& {
        ||| program.blocks@[successor.block as int].live_in@.contains(value)
        ||| exists|p: int, q: int|
            0 <= p < q < successor.operands@.len() && #[trigger] successor.operands@[p] == value
                && #[trigger] successor.operands@[q] == value
    }
}

/// The operand has to be copied before it is passed to a successor: else it and an argument
/// of the successor would share a buffer while both are live. If it is not known what is
/// passed where, every tensor has to be copied.
pub open spec fn needs_successor_copy(program: Program, ctx: Context, u: Use) -> bool {
    let op = program.ops@[u.op as int];
    &&& program.has_use(u)
    &&& op.successors@.len() > 0
    &&& program.is_tensor(ctx, program.def(u))
    &&& op.is_branch ==> exists|s: int|
        0 <= s < op.successors@.len() && passed_unsafely(
            program,
            #[trigger] op.successors@[s],
            program.def(u),
        )
}

/// Whether `value` is passed to the successor more than once.
fn passed_twice(successor: &Successor, value: usize) -> (r: bool)
    ensures
        r == exists|p: int, q: int|
            0 <= p < q < successor.operands@.len() && #[trigger] successor.operands@[p] == value
                && #[trigger] successor.operands@[q] == value,
{
    let mut found: bool = false;
    let ghost mut at: int = 0;
    let mut i: usize = 0;
    while i < successor.operands.len()
        invariant
            i <= successor.operands@.len(),
            found ==> 0 <= at < i && successor.operands@[at] == value,
            forall|k: int|
                0 <= k < i && successor.operands@[k] == value ==> found && k == at,
        decreases successor.operands@.len() - i,
    {
        if successor.operands[i] == value {
            if found {
                assert(successor.operands@[at] == value && successor.operands@[i as int] == value);
                return true;
            }
            found = true;
            proof {
                at = i as int;
            }
        }
        i += 1;
    }
    false
}

/// Whether the operand `index` of operation `op` has to be copied before it is passed to a
/// successor.
fn successor_operand_needs_copy(
    program: &Program,
    ctx: &Context,
    op: usize,
    index: usize,
) -> (r: bool)
    requires
        program.wf(*ctx),
        program.has_use(Use { op, index }),
    ensures
        r == needs_successor_copy(*program, *ctx, Use { op, index }),
{
    let op_ref = &program.ops[op];
    assert(program.op_wf(program.ops@[op as int]));
    if op_ref.successors.len() == 0 {
        return false;
    }
    let value: usize = op_ref.operands[index];
    if !is_tensor(program, ctx, value) {
        return false;
    }
    if !op_ref.is_branch {
        return true;
    }
    let mut s: usize = 0;
    while s < op_ref.successors.len()
        invariant
            s <= op_ref.successors@.len(),
            *op_ref == program.ops@[op as int],
            program.op_wf(*op_ref),
            forall|k: int|
                0 <= k < s ==> !passed_unsafely(*program, #[trigger] op_ref.successors@[k], value),
        ensures
            s == op_ref.successors@.len() || (s < op_ref.successors@.len() && passed_unsafely(
                *program,
                op_ref.successors@[s as int],
                value,
            )),
            forall|k: int|
                0 <= k < s ==> !passed_unsafely(*program, #[trigger] op_ref.successors@[k], value),
        decreases op_ref.successors@.len() - s,
    {
        let successor = &op_ref.successors[s];
        assert(program.successor_wf(op_ref.successors@[s as int]));
        if among(&successor.operands, value) {
            if among(&program.blocks[successor.block].live_in, value) || passed_twice(
                successor,
                value,
            ) {
                break;
            }
        }
        s += 1;
    }
    s < op_ref.successors.len()
}

/// The operands that have to be copied before they are passed to a successor.
fn analyze_successor_operands(program: &Program, ctx: &Context) -> (r: FxHashSet<(usize, usize)>)
    requires
        program.wf(*ctx),
    ensures
        forall|op: usize, index: usize| #[trigger]
            r@.contains((op, index)) <==> needs_successor_copy(*program, *ctx, Use { op, index }),
{
    let mut copies: FxHashSet<(usize, usize)> = collections::new_set();
    let mut k: usize = 0;
    while k < program.ops.len()
        invariant
            k <= program.ops@.len(),
            program.wf(*ctx),
            forall|op: usize, index: usize| #[trigger]
                copies@.contains((op, index)) <==> op < k && needs_successor_copy(
                    *program,
                    *ctx,
                    Use { op, index },
                ),
        decreases program.ops@.len() - k,
    {
        let mut i: usize = 0;
        while i < program.ops[k].operands.len()
            invariant
                k < program.ops@.len(),
                i <= program.ops@[k as int].operands@.len(),
                program.wf(*ctx),
                forall|op: usize, index: usize| #[trigger]
                    copies@.contains((op, index)) <==> (op < k || (op == k && index < i))
                        && needs_successor_copy(*program, *ctx, Use { op, index }),
            decreases program.ops@[k as int].operands@.len() - i,
        {
            if successor_operand_needs_copy(program, ctx, k, i) {
                collections::insert(&mut copies, (k, i));
            }
            i += 1;
        }
        k += 1;
    }
    copies
}

// Buffer classes
/// Adds what an operation contributes to the buffer classes.
fn build_buffer_classes(
    program: &Program,
    ctx: &Context,
    op: usize,
    copied: &FxHashSet<(usize, usize)>,
    uf: &mut UnionFind<usize>,
    before: Ghost<Set<(usize, usize)>>,
)
    requires
        program.wf(*ctx),
        op < program.ops@.len(),
        represents(collections::roots(*old(uf)), before@),
    ensures
        represents(
            collections::roots(*final(uf)),
            before@.union(op_edges(*program, *ctx, program.ops@[op as int], copied@)),
        ),
{
    let op_ref = &program.ops[op];
    assert(program.op_wf(program.ops@[op as int]));
    let ghost declared = declared_edges(*program, *op_ref, copied@);
    if let Some(info) = &op_ref.bufferization {
        let mut j: usize = 0;
        assert(before@.union(Set::<(usize, usize)>::empty()) =~= before@);
        while j < info.aliases.len()
            invariant
                j <= info.aliases@.len(),
                program.op_wf(*op_ref),
                program.wf(*ctx),
                op_ref.bufferization == Some(*info),
                represents(
                    collections::roots(*uf),
                    before@.union(alias_edges(*program, info.aliases@, copied@, j as nat)),
                ),
            decreases info.aliases@.len() - j,
        {
            let alias: Alias = info.aliases[j];
            assert(program.has_use(info.aliases@[j as int].operand));
            let ghost done = before@.union(
                alias_edges(*program, info.aliases@, copied@, j as nat),
            );
            if !collections::contains(copied, (alias.operand.op, alias.operand.index)) {
                let value: usize = program.ops[alias.operand.op].operands[alias.operand.index];
                join(uf, value, alias.result, Ghost(done));
                assert(done.insert((value, alias.result)) =~= before@.union(
                    alias_edges(*program, info.aliases@, copied@, (j + 1) as nat),
                ));
            }
            j += 1;
        }
    } else {
        assert(before@.union(declared) =~= before@);
    }
    let ghost start = before@.union(declared);
    if op_ref.is_branch {
        let mut s: usize = 0;
        assert(start.union(Set::<(usize, usize)>::empty()) =~= start);
        while s < op_ref.successors.len()
            invariant
                s <= op_ref.successors@.len(),
                program.op_wf(*op_ref),
                program.wf(*ctx),
                represents(
                    collections::roots(*uf),
                    start.union(successor_edges(*program, *ctx, *op_ref, s as nat)),
                ),
            decreases op_ref.successors@.len() - s,
        {
            let ghost done = start.union(successor_edges(*program, *ctx, *op_ref, s as nat));
            let successor = &op_ref.successors[s];
            assert(program.successor_wf(op_ref.successors@[s as int]));
            let block = &program.blocks[successor.block];
            let mut p: usize = 0;
            assert(done.union(Set::<(usize, usize)>::empty()) =~= done);
            while p < successor.operands.len()
                invariant
                    p <= successor.operands@.len(),
                    program.successor_wf(*successor),
                    program.wf(*ctx),
                    *block == program.blocks@[successor.block as int],
                    represents(
                        collections::roots(*uf),
                        done.union(argument_edges(*program, *ctx, *successor, p as nat)),
                    ),
                decreases successor.operands@.len() - p,
            {
                let ghost so_far = done.union(
                    argument_edges(*program, *ctx, *successor, p as nat),
                );
                let value: usize = successor.operands[p];
                assert(successor.operands@[p as int] < program.values@.len());
                if is_tensor(program, ctx, value) {
                    let argument: usize = block.arguments[p];
                    join(uf, value, argument, Ghost(so_far));
                    assert(so_far.insert((value, argument)) =~= done.union(
                        argument_edges(*program, *ctx, *successor, (p + 1) as nat),
                    ));
                }
                p += 1;
            }
            s += 1;
            assert(done.union(
                argument_edges(*program, *ctx, *successor, successor.operands@.len()),
            ) =~= start.union(successor_edges(*program, *ctx, *op_ref, s as nat)));
        }
        assert(start.union(
            successor_edges(*program, *ctx, *op_ref, op_ref.successors@.len()),
        ) =~= before@.union(op_edges(*program, *ctx, *op_ref, copied@)));
    } else {
        assert(start =~= before@.union(op_edges(*program, *ctx, *op_ref, copied@)));
    }
}

/// The buffer classes of a program, if the operands in `copied` are copied.
fn rebuild_buffer_classes(
    program: &Program,
    ctx: &Context,
    copied: &FxHashSet<(usize, usize)>,
) -> (uf: UnionFind<usize>)
    requires
        program.wf(*ctx),
    ensures
        represents(collections::roots(uf), edges(*program, *ctx, copied@)),
{
    let mut uf: UnionFind<usize> = collections::new_union_find();
    let mut k: usize = 0;
    while k < program.ops.len()
        invariant
            k <= program.ops@.len(),
            program.wf(*ctx),
            represents(
                collections::roots(uf),
                edges_upto(*program, *ctx, copied@, k as nat),
            ),
        decreases program.ops@.len() - k,
    {
        build_buffer_classes(
            program,
            ctx,
            k,
            copied,
            &mut uf,
            Ghost(edges_upto(*program, *ctx, copied@, k as nat)),
        );
        k += 1;
    }
    uf
}

// Decisions
/// A write through the operand would be observed, or goes to a buffer that cannot be
/// written: another operand shares the buffer, or a value that shares it cannot be written,
/// or one that the operation does not define is live after the operation.
pub open spec fn write_conflicts(program: Program, u: Use, edges: Set<(usize, usize)>) -> bool {
    let op = program.ops@[u.op as int];
    let value = program.def(u);
    ||| exists|i: usize|
        i != u.index && i < op.operands@.len() && connected(
            edges,
            value,
            #[trigger] op.operands@[i as int],
        )
    ||| exists|v: usize| #[trigger] connected(edges, value, v) && !program.is_writable(v)
    ||| exists|v: usize| #[trigger]
        connected(edges, value, v) && program.values@[v as int].definer != DefiningEntity::Op(u.op)
            && op.live_after@.contains(v)
}

/// The operand aliases a result and cannot be bufferized in place, if the operands in
/// `copied` are copied.
pub open spec fn must_copy(
    program: Program,
    ctx: Context,
    u: Use,
    copied: Set<(usize, usize)>,
) -> bool {
    &&& program.has_use(u)
    &&& program.ops@[u.op as int].bufferization matches Some(info) && {
        let aliases = info.aliases@;
        &&& program.is_tensor(ctx, program.def(u))
        &&& aliases_of(aliases, u).len() > 0
        &&& {
            ||| aliases_of(aliases, u).len() > 1
            ||| shares_result(aliases, u)
            ||| info.writes@[u.index as int] && write_conflicts(
                program,
                u,
                edges(program, ctx, copied),
            )
        }
    }
}

/// The operands of the first `n` operations that are bufferized out of place. Operations are
/// decided one after the other, and each sees the decisions on those before it.
pub open spec fn decided(program: Program, ctx: Context, n: nat) -> Set<(usize, usize)>
    decreases n,
{
    if n == 0 {
        Set::empty()
    } else {
        let before = decided(program, ctx, (n - 1) as nat);
        before.union(
            Set::new(
                |pair: (usize, usize)|
                    pair.0 == n - 1 && must_copy(
                        program,
                        ctx,
                        Use { op: pair.0, index: pair.1 },
                        before,
                    ),
            ),
        )
    }
}

/// All edges are between values of the program.
pub open spec fn in_range(program: Program, edges: Set<(usize, usize)>) -> bool {
    forall|a: usize, b: usize| #[trigger]
        edges.contains((a, b)) ==> a < program.values@.len() && b < program.values@.len()
}

proof fn lemma_alias_edges_in_range(
    program: Program,
    aliases: Seq<Alias>,
    copied: Set<(usize, usize)>,
    n: nat,
)
    requires
        n <= aliases.len(),
        forall|j: int|
            0 <= j < aliases.len() ==> program.has_use((#[trigger] aliases[j]).operand)
                && aliases[j].result < program.values@.len(),
        forall|k: int| 0 <= k < program.ops@.len() ==> program.op_wf(#[trigger] program.ops@[k]),
    ensures
        in_range(program, alias_edges(program, aliases, copied, n)),
    decreases n,
{
    if n > 0 {
        lemma_alias_edges_in_range(program, aliases, copied, (n - 1) as nat);
        let alias = aliases[n - 1];
        assert(program.has_use(alias.operand));
        assert(program.op_wf(program.ops@[alias.operand.op as int]));
    }
}

proof fn lemma_argument_edges_in_range(
    program: Program,
    ctx: Context,
    successor: Successor,
    n: nat,
)
    requires
        program.wf(ctx),
        program.successor_wf(successor),
        n <= successor.operands@.len(),
    ensures
        in_range(program, argument_edges(program, ctx, successor, n)),
    decreases n,
{
    if n > 0 {
        lemma_argument_edges_in_range(program, ctx, successor, (n - 1) as nat);
        assert(program.block_wf(program.blocks@[successor.block as int]));
        assert(program.blocks@[successor.block as int].arguments@[n - 1] < program.values@.len());
        assert(successor.operands@[n - 1] < program.values@.len());
    }
}

proof fn lemma_successor_edges_in_range(program: Program, ctx: Context, op: ProgramOp, n: nat)
    requires
        program.wf(ctx),
        program.op_wf(op),
        n <= op.successors@.len(),
    ensures
        in_range(program, successor_edges(program, ctx, op, n)),
    decreases n,
{
    if n > 0 {
        lemma_successor_edges_in_range(program, ctx, op, (n - 1) as nat);
        assert(program.successor_wf(op.successors@[n - 1]));
        lemma_argument_edges_in_range(
            program,
            ctx,
            op.successors@[n - 1],
            op.successors@[n - 1].operands@.len(),
        );
    }
}

proof fn lemma_edges_in_range(program: Program, ctx: Context, copied: Set<(usize, usize)>, n: nat)
    requires
        program.wf(ctx),
        n <= program.ops@.len(),
    ensures
        in_range(program, edges_upto(program, ctx, copied, n)),
    decreases n,
{
    if n > 0 {
        lemma_edges_in_range(program, ctx, copied, (n - 1) as nat);
        let op = program.ops@[n - 1];
        assert(program.op_wf(op));
        lemma_successor_edges_in_range(program, ctx, op, op.successors@.len());
        if let Some(info) = op.bufferization {
            lemma_alias_edges_in_range(program, info.aliases@, copied, info.aliases@.len());
        }
    }
}

/// What is in one class with a value of the program is a value of the program.
proof fn lemma_class_in_range(program: Program, edges: Set<(usize, usize)>, a: usize, b: usize)
    requires
        in_range(program, edges),
        a < program.values@.len(),
        connected(edges, a, b),
    ensures
        b < program.values@.len(),
{
    let n = program.values@.len();
    let r = |x: usize, y: usize| x == y || (x < n && y < n);
    assert(equivalence(r));
    assert(holds_of(r, edges));
    assert(r(a, b));
}

/// Whether a write through the operand `index` of operation `op` would be observed, or goes
/// to a buffer that cannot be written.
fn finds_write_conflict(
    program: &Program,
    ctx: &Context,
    op: usize,
    index: usize,
    uf: &mut UnionFind<usize>,
    edges: Ghost<Set<(usize, usize)>>,
) -> (r: bool)
    requires
        program.wf(*ctx),
        program.has_use(Use { op, index }),
        in_range(*program, edges@),
        represents(collections::roots(*old(uf)), edges@),
    ensures
        represents(collections::roots(*final(uf)), edges@),
        r == write_conflicts(*program, Use { op, index }, edges@),
{
    let op_ref = &program.ops[op];
    assert(program.op_wf(program.ops@[op as int]));
    let value: usize = op_ref.operands[index];
    proof {
        lemma_represents_with_value(collections::roots(*uf), edges@, value);
    }
    let class: usize = collections::find(uf, value);
    let mut i: usize = 0;
    while i < op_ref.operands.len()
        invariant
            i <= op_ref.operands@.len(),
            program.has_use(Use { op, index }),
            *op_ref == program.ops@[op as int],
            value == program.def(Use { op, index }),
            represents(collections::roots(*uf), edges@),
            collections::roots(*uf).dom().contains(value),
            collections::roots(*uf)[value] == class,
            collections::roots(*uf).dom().contains(class),
            collections::roots(*uf)[class] == class,
            forall|k: usize|
                k < i && k != index ==> !connected(
                    edges@,
                    value,
                    #[trigger] op_ref.operands@[k as int],
                ),
        decreases op_ref.operands@.len() - i,
    {
        if i != index {
            let other: usize = op_ref.operands[i];
            proof {
                lemma_represents_with_value(collections::roots(*uf), edges@, other);
            }
            let other_class: usize = collections::find(uf, other);
            proof {
                lemma_same_root(collections::roots(*uf), edges@, value, other);
            }
            if other_class == class {
                assert(connected(edges@, value, op_ref.operands@[i as int]));
                return true;
            }
        }
        i += 1;
    }
    proof {
        lemma_represents_with_value(collections::roots(*uf), edges@, class);
    }
    let members: Vec<usize> = collections::set_members(uf, class);
    proof {
        assert forall|v: usize| #[trigger] members@.contains(v) <==> connected(
            edges@,
            value,
            v,
        ) by {
            let roots = collections::roots(*uf);
            if members@.contains(v) {
                lemma_same_root(roots, edges@, value, v);
            }
            if connected(edges@, value, v) {
                lemma_class_is_seen(roots, edges@, value, v);
            }
        }
    }
    let mut m: usize = 0;
    while m < members.len()
        invariant
            m <= members@.len(),
            represents(collections::roots(*uf), edges@),
            program.wf(*ctx),
            program.has_use(Use { op, index }),
            in_range(*program, edges@),
            *op_ref == program.ops@[op as int],
            value == program.def(Use { op, index }),
            value < program.values@.len(),
            forall|v: usize| #[trigger] members@.contains(v) <==> connected(edges@, value, v),
            forall|k: int|
                0 <= k < m ==> program.is_writable(#[trigger] members@[k]) && (
                program.values@[members@[k] as int].definer == DefiningEntity::Op(op)
                    || !op_ref.live_after@.contains(members@[k])),
        decreases members@.len() - m,
    {
        let member: usize = members[m];
        proof {
            assert(members@.contains(members@[m as int]));
            lemma_class_in_range(*program, edges@, value, member);
        }
        if !is_value_writable(program, ctx, member) {
            assert(connected(edges@, value, member));
            return true;
        }
        let defined_here: bool = match program.values[member].definer {
            DefiningEntity::Op(definer) => definer == op,
            DefiningEntity::Block(_) => false,
        };
        if !defined_here && among(&op_ref.live_after, member) {
            assert(connected(edges@, value, member));
            return true;
        }
        m += 1;
    }
    proof {
        assert forall|v: usize| #[trigger] connected(edges@, value, v) implies program.is_writable(
            v,
        ) && (program.values@[v as int].definer == DefiningEntity::Op(op)
            || !op_ref.live_after@.contains(v)) by {
            assert(members@.contains(v));
            let k = choose|k: int| 0 <= k < members@.len() && members@[k] == v;
            assert(program.is_writable(members@[k]));
        }
    }
    false
}

/// Decides which aliasing operands of an operation are bufferized out of place, and says
/// whether there is any that was not decided before.
fn analyze_in_place_operands(
    program: &Program,
    ctx: &Context,
    op: usize,
    uf: &mut UnionFind<usize>,
    copied: &mut FxHashSet<(usize, usize)>,
) -> (changed: bool)
    requires
        program.wf(*ctx),
        op < program.ops@.len(),
        represents(collections::roots(*old(uf)), edges(*program, *ctx, old(copied)@)),
    ensures
        forall|o: usize, index: usize| #[trigger]
            final(copied)@.contains((o, index)) <==> old(copied)@.contains((o, index)) || (o == op
                && must_copy(*program, *ctx, Use { op: o, index }, old(copied)@)),
        !changed ==> final(copied)@ == old(copied)@,
        !changed ==> represents(
            collections::roots(*final(uf)),
            edges(*program, *ctx, old(copied)@),
        ),
{
    let op_ref = &program.ops[op];
    assert(program.op_wf(program.ops@[op as int]));
    let info = match &op_ref.bufferization {
        Some(info) => info,
        None => {
            return false;
        },
    };
    if info.aliases.len() == 0 {
        proof {
            reveal(Seq::filter);
        }
        return false;
    }
    let ghost shared = edges(*program, *ctx, copied@);
    proof {
        lemma_edges_in_range(*program, *ctx, copied@, program.ops@.len());
    }
    let mut changed: bool = false;
    let mut i: usize = 0;
    while i < op_ref.operands.len()
        invariant
            op < program.ops@.len(),
            i <= op_ref.operands@.len(),
            *op_ref == program.ops@[op as int],
            program.wf(*ctx),
            program.op_wf(*op_ref),
            op_ref.bufferization == Some(*info),
            shared == edges(*program, *ctx, old(copied)@),
            in_range(*program, shared),
            represents(collections::roots(*uf), shared),
            forall|o: usize, index: usize| #[trigger]
                copied@.contains((o, index)) <==> old(copied)@.contains((o, index)) || (o == op
                    && index < i && must_copy(
                    *program,
                    *ctx,
                    Use { op: o, index },
                    old(copied)@,
                )),
            !changed ==> copied@ == old(copied)@,
        decreases op_ref.operands@.len() - i,
    {
        let opd = Use { op, index: i };
        let value: usize = op_ref.operands[i];
        assert(program.has_use(opd));
        if is_tensor(program, ctx, value) && !collections::contains(copied, (op, i)) {
            let aliasing: Vec<Alias> = Alias::get_aliases_for_operand(
                info.aliases.as_slice(),
                opd,
            );
            if aliasing.len() > 0 {
                let out_of_place: bool = if Alias::operand_aliases_with_multiple_results(
                    info.aliases.as_slice(),
                    opd,
                ) || Alias::operand_aliases_with_other_operands(info.aliases.as_slice(), opd) {
                    true
                } else if !info.writes[i] {
                    false
                } else {
                    finds_write_conflict(program, ctx, op, i, uf, Ghost(shared))
                };
                if out_of_place {
                    collections::insert(copied, (op, i));
                    changed = true;
                }
            }
        }
        i += 1;
    }
    changed
}

/// What has to be copied to bufferize a program.
#[derive(Debug)]
pub struct Bufferizer {
    /// Aliasing operands that are copied to a new buffer before the operation.
    pub out_of_place_operands: FxHashSet<(usize, usize)>,
    /// Operands that are copied before they are passed to a successor.
    pub successor_operands_needing_copy: FxHashSet<(usize, usize)>,
}

/// Decides what has to be copied to bufferize a program.
///
/// 1. A tensor that is passed to a successor is copied if it is live there, or if it is
///    passed to it more than once.
/// 2. Values that share a buffer are grouped into classes.
/// 3. An operand that aliases a result is bufferized in place if the operation only reads
///    through it. If the operation writes through it, then only if no other operand is in the
///    same class, all members of the class can be written, and none is live after the
///    operation but those that it defines. Else the operand is copied to a new buffer, and
///    the classes are rebuilt without the alias before the next operation is decided.
pub fn bufferize(program: &Program, ctx: &Context) -> (r: Bufferizer)
    requires
        program.wf(*ctx),
    ensures
        r.out_of_place_operands@ == decided(*program, *ctx, program.ops@.len()),
        forall|op: usize, index: usize| #[trigger]
            r.successor_operands_needing_copy@.contains((op, index)) <==> needs_successor_copy(
                *program,
                *ctx,
                Use { op, index },
            ),
{
    let successor_operands_needing_copy: FxHashSet<(usize, usize)> = analyze_successor_operands(
        program,
        ctx,
    );
    let mut copied: FxHashSet<(usize, usize)> = collections::new_set();
    let mut uf: UnionFind<usize> = rebuild_buffer_classes(program, ctx, &copied);
    let mut k: usize = 0;
    while k < program.ops.len()
        invariant
            k <= program.ops@.len(),
            program.wf(*ctx),
            copied@ == decided(*program, *ctx, k as nat),
            represents(collections::roots(uf), edges(*program, *ctx, copied@)),
        decreases program.ops@.len() - k,
    {
        let ghost before = copied@;
        let changed: bool = analyze_in_place_operands(program, ctx, k, &mut uf, &mut copied);
        proof {
            let after = decided(*program, *ctx, (k + 1) as nat);
            assert forall|pair: (usize, usize)| copied@.contains(pair) == after.contains(pair) by {
                assert(pair == (pair.0, pair.1));
                assert(copied@.contains((pair.0, pair.1)) <==> before.contains((pair.0, pair.1))
                    || (pair.0 == k && must_copy(
                    *program,
                    *ctx,
                    Use { op: pair.0, index: pair.1 },
                    before,
                )));
            }
            assert(copied@ =~= after);
        }
        if changed {
            uf = rebuild_buffer_classes(program, ctx, &copied);
        }
        k += 1;
    }
    Bufferizer { out_of_place_operands: copied, successor_operands_needing_copy }
}

// Laws
proof fn lemma_alias_edges_antitone(
    program: Program,
    aliases: Seq<Alias>,
    fewer: Set<(usize, usize)>,
    more: Set<(usize, usize)>,
    n: nat,
)
    requires
        fewer.subset_of(more),
    ensures
        alias_edges(program, aliases, more, n).subset_of(alias_edges(program, aliases, fewer, n)),
    decreases n,
{
    if n > 0 {
        lemma_alias_edges_antitone(program, aliases, fewer, more, (n - 1) as nat);
    }
}

proof fn lemma_edges_antitone(
    program: Program,
    ctx: Context,
    fewer: Set<(usize, usize)>,
    more: Set<(usize, usize)>,
    n: nat,
)
    requires
        fewer.subset_of(more),
    ensures
        edges_upto(program, ctx, more, n).subset_of(edges_upto(program, ctx, fewer, n)),
    decreases n,
{
    if n > 0 {
        lemma_edges_antitone(program, ctx, fewer, more, (n - 1) as nat);
        if let Some(info) = program.ops@[n - 1].bufferization {
            lemma_alias_edges_antitone(
                program,
                info.aliases@,
                fewer,
                more,
                info.aliases@.len(),
            );
        }
    }
}

/// Copying more operands lets fewer values share a buffer.
pub proof fn law_copies_only_shrink_classes(
    program: Program,
    ctx: Context,
    fewer: Set<(usize, usize)>,
    more: Set<(usize, usize)>,
    a: usize,
    b: usize,
)
    requires
        fewer.subset_of(more),
        connected(edges(program, ctx, more), a, b),
    ensures
        connected(edges(program, ctx, fewer), a, b),
{
    lemma_edges_antitone(program, ctx, fewer, more, program.ops@.len());
    lemma_connected_monotone(edges(program, ctx, more), edges(program, ctx, fewer), a, b);
}

/// A decision is never taken back.
pub proof fn law_decisions_only_grow(program: Program, ctx: Context, m: nat, n: nat)
    requires
        m <= n,
    ensures
        decided(program, ctx, m).subset_of(decided(program, ctx, n)),
    decreases n,
{
    if m < n {
        law_decisions_only_grow(program, ctx, m, (n - 1) as nat);
    }
}

/// What is decided on an operand is what the decisions on the operations before it ask for.
pub proof fn law_decision(program: Program, ctx: Context, u: Use, n: nat)
    requires
        u.op < n,
    ensures
        decided(program, ctx, n).contains(u.pair()) <==> must_copy(
            program,
            ctx,
            u,
            decided(program, ctx, u.op as nat),
        ),
    decreases n,
{
    if u.op < n - 1 {
        law_decision(program, ctx, u, (n - 1) as nat);
    } else {
        lemma_undecided_yet(program, ctx, u, (n - 1) as nat);
    }
}

proof fn lemma_undecided_yet(program: Program, ctx: Context, u: Use, n: nat)
    requires
        n <= u.op,
    ensures
        !decided(program, ctx, n).contains(u.pair()),
    decreases n,
{
    if n > 0 {
        lemma_undecided_yet(program, ctx, u, (n - 1) as nat);
    }
}

/// A write in place is never observed. Once all decisions are taken, of an operand that
/// aliases a result, is written through and is not copied, the following holds. It aliases
/// that result alone, and alone aliases it. No other operand of the operation shares its
/// buffer. All values that share its buffer can be written, and none of them is live after
/// the operation, but those that the operation itself defines.
pub proof fn law_writes_in_place_are_safe(program: Program, ctx: Context, u: Use)
    requires
        program.wf(ctx),
        program.has_use(u),
        program.is_tensor(ctx, program.def(u)),
        program.ops@[u.op as int].bufferization is Some,
        aliases_of(program.ops@[u.op as int].bufferization->Some_0.aliases@, u).len() > 0,
        program.ops@[u.op as int].bufferization->Some_0.writes@[u.index as int],
        !decided(program, ctx, program.ops@.len()).contains(u.pair()),
    ensures
        ({
            let op = program.ops@[u.op as int];
            let aliases = op.bufferization->Some_0.aliases@;
            let value = program.def(u);
            let shared = edges(program, ctx, decided(program, ctx, program.ops@.len()));
            &&& aliases_of(aliases, u).len() == 1
            &&& !shares_result(aliases, u)
            &&& forall|i: usize|
                i != u.index && i < op.operands@.len() ==> !connected(
                    shared,
                    value,
                    #[trigger] op.operands@[i as int],
                )
            &&& forall|v: usize| #[trigger]
                connected(shared, value, v) ==> {
                    &&& program.is_writable(v)
                    &&& op.live_after@.contains(v) ==> program.values@[v as int].definer
                        == DefiningEntity::Op(u.op)
                }
        }),
{
    let n = program.ops@.len();
    let then = decided(program, ctx, u.op as nat);
    let now = decided(program, ctx, n);
    law_decision(program, ctx, u, n);
    law_decisions_only_grow(program, ctx, u.op as nat, n);
    let op = program.ops@[u.op as int];
    let value = program.def(u);
    assert(!write_conflicts(program, u, edges(program, ctx, then)));
    assert forall|i: usize| i != u.index && i < op.operands@.len() implies !connected(
        edges(program, ctx, now),
        value,
        #[trigger] op.operands@[i as int],
    ) by {
        if connected(edges(program, ctx, now), value, op.operands@[i as int]) {
            law_copies_only_shrink_classes(program, ctx, then, now, value, op.operands@[i as int]);
        }
    }
    assert forall|v: usize| #[trigger] connected(edges(program, ctx, now), value, v) implies {
        &&& program.is_writable(v)
        &&& op.live_after@.contains(v) ==> program.values@[v as int].definer
            == DefiningEntity::Op(u.op)
    } by {
        law_copies_only_shrink_classes(program, ctx, then, now, value, v);
        assert(connected(edges(program, ctx, then), value, v));
    }
}

/// An operand that is only read through is never copied, unless it aliases several results
/// or a result that another operand aliases too.
pub proof fn law_reads_stay_in_place(program: Program, ctx: Context, u: Use)
    requires
        program.wf(ctx),
        program.has_use(u),
        program.ops@[u.op as int].bufferization is Some,
        !program.ops@[u.op as int].bufferization->Some_0.writes@[u.index as int],
        aliases_of(program.ops@[u.op as int].bufferization->Some_0.aliases@, u).len() <= 1,
        !shares_result(program.ops@[u.op as int].bufferization->Some_0.aliases@, u),
    ensures
        !decided(program, ctx, program.ops@.len()).contains(u.pair()),
{
    law_decision(program, ctx, u, program.ops@.len());
}

/// Only tensors that alias a result are bufferized out of place.
pub proof fn law_only_aliasing_tensors_are_copied(program: Program, ctx: Context, u: Use)
    requires
        program.has_use(u),
        decided(program, ctx, program.ops@.len()).contains(u.pair()),
    ensures
        program.is_tensor(ctx, program.def(u)),
        program.ops@[u.op as int].bufferization matches Some(info) && aliases_of(
            info.aliases@,
            u,
        ).len() > 0,
{
    law_decision(program, ctx, u, program.ops@.len());
}

/// A tensor that is passed to a successor without a copy is not live where the successor
/// begins, and is passed to it once.
pub proof fn law_passed_values_are_handed_over(
    program: Program,
    ctx: Context,
    u: Use,
    successor: int,
    p: int,
)
    requires
        program.has_use(u),
        program.is_tensor(ctx, program.def(u)),
        program.ops@[u.op as int].is_branch,
        0 <= successor < program.ops@[u.op as int].successors@.len(),
        0 <= p < program.ops@[u.op as int].successors@[successor].operands@.len(),
        program.ops@[u.op as int].successors@[successor].operands@[p] == program.def(u),
        !needs_successor_copy(program, ctx, u),
    ensures
        ({
            let target = program.ops@[u.op as int].successors@[successor];
            &&& !program.blocks@[target.block as int].live_in@.contains(program.def(u))
            &&& forall|q: int|
                0 <= q < target.operands@.len() && q != p ==> #[trigger] target.operands@[q]
                    != program.def(u)
        }),
{
    let target = program.ops@[u.op as int].successors@[successor];
    assert(!passed_unsafely(program, target, program.def(u)));
    assert(target.operands@.contains(program.def(u)));
}

// Copies
#[derive(Clone, Copy, Debug, PartialEq, Eq, Structural)]
pub enum BufferizerErr {
    ExpectedRankedMemref { operand: usize },
}

/// Asks a memref for its sizes in the first `n` of some dimensions. Gives the steps and the
/// sizes.
pub open spec fn dim_steps(steps: Seq<StepView>, memref: Ref, dims: Seq<int>, n: nat) -> (
    Seq<StepView>,
    Seq<Ref>,
)
    decreases n,
{
    if n == 0 {
        (steps, Seq::empty())
    } else {
        let (before, sizes) = dim_steps(steps, memref, dims, (n - 1) as nat);
        (
            before.push(StepOf::IndexConstant(dims[n - 1] as usize)).push(
                StepOf::Dim { memref, at: Ref::Step(before.len() as usize) },
            ),
            sizes.push(Ref::Step((before.len() + 1) as usize)),
        )
    }
}

/// Copies an operand to a new buffer. Gives the steps and the buffer.
pub open spec fn copy_steps(
    steps: Seq<StepView>,
    ctx: Context,
    operand: Value,
    dynamic: Option<Seq<Value>>,
) -> (Seq<StepView>, Ref) {
    let memref = Ref::Value(operand);
    let dims = conversions::dynamic_dims(ctx.as_memref(operand.ty)->Some_0.shape);
    let (before, sizes) = match dynamic {
        Some(values) => (steps, plan::value_refs(values)),
        None => dim_steps(steps, memref, dims, dims.len()),
    };
    let buffer = Ref::Step(before.len() as usize);
    (
        before.push(StepOf::Alloc { ty: operand.ty, dynamic: sizes }).push(
            StepOf::Copy { destination: buffer, source: memref },
        ),
        buffer,
    )
}

/// Copies those of the first `n` operands that need it. Gives the steps, and what takes the
/// place of each operand.
pub open spec fn copied_operands(
    needs_copy: spec_fn(int) -> bool,
    ctx: Context,
    operands: Seq<Value>,
    dynamic: spec_fn(int) -> Option<Seq<Value>>,
    n: nat,
) -> (Seq<StepView>, Seq<Ref>)
    decreases n,
{
    if n == 0 {
        (Seq::empty(), Seq::empty())
    } else {
        let (before, refs) = copied_operands(needs_copy, ctx, operands, dynamic, (n - 1) as nat);
        if needs_copy(n - 1) {
            let (steps, buffer) = copy_steps(before, ctx, operands[n - 1], dynamic(n - 1));
            (steps, refs.push(buffer))
        } else {
            (before, refs.push(Ref::Value(operands[n - 1])))
        }
    }
}

/// What precedes an operation: steps, and what takes the place of each operand.
#[derive(Debug)]
pub struct OperandCopies {
    pub steps: Vec<Step>,
    pub operands: Vec<Ref>,
}

fn push_dims(steps: &mut Vec<Step>, memref: Ref, shape: &Vec<Dimension>) -> (r: Vec<Ref>)
    ensures
        ({
            let dims = conversions::dynamic_dims(shape@);
            (plan::steps_view(final(steps)@), r@) == dim_steps(
                plan::steps_view(old(steps)@),
                memref,
                dims,
                dims.len(),
            )
        }),
{
    let ghost start = plan::steps_view(steps@);
    let ghost all = conversions::dynamic_dims(shape@);
    let mut sizes: Vec<Ref> = Vec::new();
    let mut i: usize = 0;
    assert(shape@.take(0) =~= Seq::<Dimension>::empty());
    assert(sizes@ =~= Seq::<Ref>::empty());
    while i < shape.len()
        invariant
            i <= shape@.len(),
            (plan::steps_view(steps@), sizes@) == dim_steps(
                start,
                memref,
                conversions::dynamic_dims(shape@.take(i as int)),
                conversions::dynamic_dims(shape@.take(i as int)).len(),
            ),
        decreases shape@.len() - i,
    {
        let ghost before = conversions::dynamic_dims(shape@.take(i as int));
        let ghost now = conversions::dynamic_dims(shape@.take(i + 1));
        proof {
            assert(shape@.take(i + 1).drop_last() =~= shape@.take(i as int));
            assert(shape@.take(i + 1).last() == shape@[i as int]);
        }
        if let Dimension::Dynamic = shape[i] {
            proof {
                assert(now == before.push(i as int));
                assert(before =~= now.take(before.len() as int));
                lemma_dim_steps_prefix(start, memref, before, now, before.len());
            }
            let at: Ref = plan::push(steps, StepOf::IndexConstant(i));
            sizes.push(plan::push(steps, StepOf::Dim { memref, at }));
        }
        i += 1;
    }
    assert(shape@.take(shape@.len() as int) =~= shape@);
    sizes
}

proof fn lemma_dim_steps_prefix(
    steps: Seq<StepView>,
    memref: Ref,
    dims: Seq<int>,
    longer: Seq<int>,
    n: nat,
)
    requires
        n <= dims.len() <= longer.len(),
        dims == longer.take(dims.len() as int),
    ensures
        dim_steps(steps, memref, dims, n) == dim_steps(steps, memref, longer, n),
    decreases n,
{
    if n > 0 {
        lemma_dim_steps_prefix(steps, memref, dims, longer, (n - 1) as nat);
        assert(dims[n - 1] == longer[n - 1]);
    }
}

/// What an operation knows of the sizes of an operand.
pub open spec fn sizes_view(sizes: Option<Vec<Value>>) -> Option<Seq<Value>> {
    match sizes {
        Some(values) => Some(values@),
        None => None,
    }
}

/// What an operation knows of the sizes of each operand.
pub open spec fn dynamic_view(dynamic: Seq<Option<Vec<Value>>>) -> spec_fn(int) -> Option<Seq<Value>> {
    |i: int| sizes_view(dynamic[i])
}

fn push_copy(
    steps: &mut Vec<Step>,
    ctx: &Context,
    operand: Value,
    dynamic: &Option<Vec<Value>>,
) -> (r: Ref)
    requires
        ctx.has_value(operand),
        ctx.as_memref(operand.ty) is Some,
    ensures
        (plan::steps_view(final(steps)@), r) == copy_steps(
            plan::steps_view(old(steps)@),
            *ctx,
            operand,
            sizes_view(*dynamic),
        ),
{
    let source = Ref::Value(operand);
    let sizes: Vec<Ref> = match dynamic {
        Some(values) => plan::refs_to_values(values),
        None => push_dims(steps, source, &ctx.ranked_memref(operand.ty).unwrap().shape),
    };
    let destination: Ref = plan::push(steps, StepOf::Alloc { ty: operand.ty, dynamic: sizes });
    plan::push(steps, StepOf::Copy { destination, source });
    destination
}

impl Bufferizer {
    /// The operand of operation `op` at each index is copied.
    pub open spec fn copies_at(&self, op: usize) -> spec_fn(int) -> bool {
        |index: int| self.copies(op, index)
    }

    /// The operand of operation `op` at each index is copied, but is not a memref.
    pub open spec fn not_a_memref_at(
        &self,
        ctx: Context,
        op: usize,
        operands: Seq<Value>,
    ) -> spec_fn(int) -> bool {
        |index: int| self.copies(op, index) && ctx.as_memref(operands[index].ty) is None
    }

    /// Operand `index` of operation `op` is copied.
    pub open spec fn copies(&self, op: usize, index: int) -> bool {
        self.out_of_place_operands@.contains((op, index as usize))
            || self.successor_operands_needing_copy@.contains((op, index as usize))
    }

    /// Whether operation `op` takes part in bufferization, or has operands that are copied
    /// because they are passed to a successor.
    pub fn can_convert_op(&self, program: &Program, op: usize) -> (r: bool)
        requires
            op < program.ops@.len(),
        ensures
            r == (program.ops@[op as int].bufferization is Some || exists|index: usize|
                index < program.ops@[op as int].operands@.len()
                    && #[trigger] self.successor_operands_needing_copy@.contains((op, index))),
    {
        if program.ops[op].bufferization.is_some() {
            return true;
        }
        let mut i: usize = 0;
        while i < program.ops[op].operands.len()
            invariant
                op < program.ops@.len(),
                i <= program.ops@[op as int].operands@.len(),
                forall|index: usize|
                    index < i ==> !#[trigger] self.successor_operands_needing_copy@.contains(
                        (op, index),
                    ),
            decreases program.ops@[op as int].operands@.len() - i,
        {
            if collections::contains(&self.successor_operands_needing_copy, (op, i)) {
                return true;
            }
            i += 1;
        }
        false
    }

    /// Copies the operands of operation `op` that need a buffer of their own. `operands` are
    /// the operands, which have been bufferized, and `dynamic` the sizes of the dynamic
    /// dimensions of each, if the operation knows them. Where it does not, the memref is
    /// asked for its sizes.
    pub fn rewrite(
        &self,
        ctx: &Context,
        op: usize,
        operands: &Vec<Value>,
        dynamic: &Vec<Option<Vec<Value>>>,
    ) -> (r: Result<OperandCopies, BufferizerErr>)
        requires
            ctx.has_values(operands@),
            dynamic@.len() == operands@.len(),
        ensures
            match search::first_where(operands@.len(), self.not_a_memref_at(*ctx, op, operands@)) {
                Some(i) => r == Err::<OperandCopies, BufferizerErr>(
                    BufferizerErr::ExpectedRankedMemref { operand: i as usize },
                ),
                None => r matches Ok(copies) && (
                    plan::steps_view(copies.steps@),
                    copies.operands@,
                ) == copied_operands(
                    self.copies_at(op),
                    *ctx,
                    operands@,
                    dynamic_view(dynamic@),
                    operands@.len(),
                ),
            },
    {
        let ghost broken = self.not_a_memref_at(*ctx, op, operands@);
        let mut steps: Vec<Step> = Vec::new();
        let mut refs: Vec<Ref> = Vec::new();
        let mut i: usize = 0;
        assert(plan::steps_view(steps@) =~= Seq::<StepView>::empty());
        assert(refs@ =~= Seq::<Ref>::empty());
        while i < operands.len()
            invariant
                i <= operands@.len() == dynamic@.len(),
                ctx.has_values(operands@),
                broken == self.not_a_memref_at(*ctx, op, operands@),
                search::first_where(i as nat, broken) is None,
                (plan::steps_view(steps@), refs@) == copied_operands(
                    self.copies_at(op),
                    *ctx,
                    operands@,
                    dynamic_view(dynamic@),
                    i as nat,
                ),
            decreases operands@.len() - i,
        {
            let operand: Value = operands[i];
            assert(ctx.has_value(operands@[i as int]));
            let copied: bool = collections::contains(&self.out_of_place_operands, (op, i))
                || collections::contains(&self.successor_operands_needing_copy, (op, i));
            assert(copied == self.copies_at(op)(i as int));
            if copied {
                if ctx.ranked_memref(operand.ty).is_none() {
                    proof {
                        assert(broken(i as int));
                        assert(search::first_where((i + 1) as nat, broken) == Some(i as int));
                        search::lemma_first_where_stable(
                            (i + 1) as nat,
                            operands@.len(),
                            broken,
                        );
                    }
                    return Err(BufferizerErr::ExpectedRankedMemref { operand: i });
                }
                let buffer: Ref = push_copy(&mut steps, ctx, operand, &dynamic[i]);
                refs.push(buffer);
            } else {
                refs.push(Ref::Value(operand));
            }
            assert(!broken(i as int));
            i += 1;
        }
        Ok(OperandCopies { steps, operands: refs })
    }

    /// Whether a type is one that a memref stands for.
    pub fn can_convert_type(&self, ctx: &Context, ty: TypeHandle) -> (r: bool)
        requires
            ctx.has(ty),
        ensures
            r == (ctx.as_tensor(ty) is Some),
    {
        memref::has_memref_type(ty, ctx)
    }

    /// The memref type that stands for a type, or the type itself if there is none.
    pub fn convert_type(&self, ctx: &mut Context, ty: TypeHandle) -> (r: TypeHandle)
        requires
            old(ctx).wf(),
            old(ctx).has(ty),
        ensures
            final(ctx).wf(),
            final(ctx).extends(*old(ctx)),
            final(ctx).has(r),
            final(ctx).get(r) == memref::stored_as(old(ctx).get(ty)),
            old(ctx).as_tensor(ty) is None ==> r == ty && final(ctx)@ == old(ctx)@,
    {
        memref::to_memref_type(ty, ctx)
    }
}

} // verus!
