//! Slice parameters, as users write them and as operations hold them.
//!
//! A user gives each parameter as a constant or as a value. An operation holds constants in
//! an attribute and values among its operands, and the attribute says which operand a
//! parameter is.

use crate::ir;
use crate::ir::{Context, Value};
use crate::memref::attributes::{SliceParamAttr, SliceParamsAttr};
use crate::memref::type_interfaces::Dimension;
use crate::search;
use vstd::prelude::*;

verus! {

/// A parameter of a slice, as users write it.
#[derive(Clone, Copy, Debug, PartialEq, Eq, Structural)]
pub enum SliceParam {
    /// A constant.
    Static(usize),
    /// A value of index type.
    Dynamic(Value),
}

/// The values among the parameters, in order.
pub open spec fn dynamic_values(params: Seq<SliceParam>) -> Seq<Value>
    decreases params.len(),
{
    if params.len() == 0 {
        Seq::empty()
    } else {
        let rest = dynamic_values(params.drop_last());
        match params.last() {
            SliceParam::Static(_) => rest,
            SliceParam::Dynamic(value) => rest.push(value),
        }
    }
}

/// The attribute form of `params`, whose values are operands from number `base` on.
pub open spec fn attrs_of(params: Seq<SliceParam>, base: nat) -> Seq<SliceParamAttr> {
    Seq::new(
        params.len(),
        |i: int|
            match params[i] {
                SliceParam::Static(val) => SliceParamAttr::Static(val),
                SliceParam::Dynamic(_) => SliceParamAttr::OperandIdx(
                    (base + dynamic_values(params.take(i)).len()) as usize,
                ),
            },
    )
}

/// Every operand that `attrs` refers to is there.
pub open spec fn refers_within(attrs: Seq<SliceParamAttr>, num_operands: nat) -> bool {
    forall|i: int|
        0 <= i < attrs.len() ==> (#[trigger] attrs[i] matches SliceParamAttr::OperandIdx(idx)
            ==> idx < num_operands)
}

/// The parameters that `attrs` stand for, with the values taken from `operands`.
pub open spec fn params_of(attrs: Seq<SliceParamAttr>, operands: Seq<Value>) -> Seq<SliceParam> {
    Seq::new(
        attrs.len(),
        |i: int|
            match attrs[i] {
                SliceParamAttr::Static(val) => SliceParam::Static(val),
                SliceParamAttr::OperandIdx(idx) => SliceParam::Dynamic(operands[idx as int]),
            },
    )
}

/// The parameter at each index is an operand.
pub open spec fn operand_at(attrs: Seq<SliceParamAttr>) -> spec_fn(int) -> bool {
    |i: int| attrs[i] is OperandIdx
}

/// The number of parameters that are operands.
pub open spec fn num_operand_params(attrs: Seq<SliceParamAttr>) -> nat {
    search::count_where(attrs.len(), operand_at(attrs))
}

/// The step at each index is the constant zero.
pub open spec fn zero_at(steps: Seq<SliceParamAttr>) -> spec_fn(int) -> bool {
    |i: int| steps[i] == SliceParamAttr::Static(0)
}

/// The first dimension in which the step is the constant zero.
pub open spec fn first_zero_step(steps: Seq<SliceParamAttr>) -> Option<int> {
    search::first_where(steps.len(), zero_at(steps))
}

/// The shape of a slice with the given sizes.
pub open spec fn slice_shape(sizes: Seq<SliceParam>) -> Seq<Dimension> {
    Seq::new(
        sizes.len(),
        |i: int|
            match sizes[i] {
                SliceParam::Static(val) => Dimension::Static(val),
                SliceParam::Dynamic(_) => Dimension::Dynamic,
            },
    )
}

impl SliceParamsAttr {
    /// The number of parameters of all kinds that are operands.
    pub open spec fn num_dynamic(&self) -> nat {
        num_operand_params(self.offsets@) + num_operand_params(self.sizes@) + num_operand_params(
            self.steps@,
        )
    }

    /// Every operand that is referred to is there.
    pub open spec fn refers_within(&self, num_operands: nat) -> bool {
        &&& refers_within(self.offsets@, num_operands)
        &&& refers_within(self.sizes@, num_operands)
        &&& refers_within(self.steps@, num_operands)
    }

    /// The parameters of all kinds can be counted in a machine word.
    pub open spec fn countable(&self) -> bool {
        self.offsets@.len() + self.sizes@.len() + self.steps@.len() <= usize::MAX
    }

    /// Whether every operand that is referred to is among the first `num_operands`.
    pub fn is_within(&self, num_operands: usize) -> (r: bool)
        ensures
            r == self.refers_within(num_operands as nat),
    {
        is_within(&self.offsets, num_operands) && is_within(&self.sizes, num_operands)
            && is_within(&self.steps, num_operands)
    }
}

pub proof fn lemma_dynamic_values_bound(params: Seq<SliceParam>)
    ensures
        dynamic_values(params).len() <= params.len(),
    decreases params.len(),
{
    if params.len() > 0 {
        lemma_dynamic_values_bound(params.drop_last());
    }
}

pub proof fn lemma_dynamic_values_prefix(params: Seq<SliceParam>, i: int)
    requires
        0 <= i < params.len(),
        params[i] is Dynamic,
    ensures
        dynamic_values(params.take(i)).len() < dynamic_values(params).len(),
        dynamic_values(params)[dynamic_values(params.take(i)).len() as int]
            == params[i]->Dynamic_0,
    decreases params.len(),
{
    let init = params.drop_last();
    if i == params.len() - 1 {
        assert(params.take(i) =~= init);
    } else {
        lemma_dynamic_values_prefix(init, i);
        assert(init.take(i) =~= params.take(i));
    }
}

/// The parameters that are operands.
pub open spec fn operand_params(attrs: Seq<SliceParamAttr>) -> Seq<SliceParamAttr> {
    attrs.filter(|attr: SliceParamAttr| attr is OperandIdx)
}

/// Counting the parameters that are operands gives as many as there are.
pub proof fn law_num_operand_params(attrs: Seq<SliceParamAttr>)
    ensures
        num_operand_params(attrs) == operand_params(attrs).len(),
    decreases attrs.len(),
{
    reveal(Seq::filter);
    if attrs.len() > 0 {
        let init = attrs.drop_last();
        law_num_operand_params(init);
        assert forall|i: int| 0 <= i < init.len() implies #[trigger] operand_at(init)(i)
            == operand_at(attrs)(i) by {
            assert(init[i] == attrs[i]);
        }
        search::lemma_count_where_same(init.len(), operand_at(init), operand_at(attrs));
    }
}

/// A slice of a value of the given rank has one parameter of each kind per dimension, no step
/// that is the constant zero, and so many parameters that are operands as there are values, all
/// of index type.
pub open spec fn well_sliced(
    ctx: Context,
    params: SliceParamsAttr,
    rank: nat,
    values: Seq<Value>,
) -> bool {
    &&& params.offsets@.len() == rank
    &&& params.sizes@.len() == rank
    &&& params.steps@.len() == rank
    &&& forall|i: int|
        0 <= i < params.steps@.len() ==> #[trigger] params.steps@[i] != SliceParamAttr::Static(0)
    &&& forall|i: int| 0 <= i < values.len() ==> ctx.get((#[trigger] values[i]).ty) is Index
    &&& values.len() == operand_params(params.offsets@).len() + operand_params(
        params.sizes@,
    ).len() + operand_params(params.steps@).len()
}

/// What the checks of slices look for is what makes a slice well-formed.
pub proof fn lemma_well_sliced(
    ctx: Context,
    params: SliceParamsAttr,
    rank: nat,
    values: Seq<Value>,
)
    ensures
        well_sliced(ctx, params, rank, values) <==> {
            &&& params.offsets@.len() == rank
            &&& params.sizes@.len() == rank
            &&& params.steps@.len() == rank
            &&& first_zero_step(params.steps@) is None
            &&& search::first_where(values.len(), ir::non_index_at(ctx, values)) is None
            &&& values.len() == params.num_dynamic()
        },
{
    law_num_operand_params(params.offsets@);
    law_num_operand_params(params.sizes@);
    law_num_operand_params(params.steps@);
    let zero = zero_at(params.steps@);
    let other = ir::non_index_at(ctx, values);
    search::lemma_first_where(params.steps@.len(), zero);
    search::lemma_first_where(values.len(), other);
    if first_zero_step(params.steps@) is None {
        assert forall|i: int| 0 <= i < params.steps@.len() implies #[trigger] params.steps@[i]
            != SliceParamAttr::Static(0) by {
            assert(!zero(i));
        }
    }
    if search::first_where(values.len(), other) is None {
        assert forall|i: int| 0 <= i < values.len() implies ctx.get(
            (#[trigger] values[i]).ty,
        ) is Index by {
            assert(!other(i));
        }
    }
}

/// As many parameters become operands as there are values.
pub proof fn lemma_num_operand_params(params: Seq<SliceParam>, base: nat)
    ensures
        num_operand_params(attrs_of(params, base)) == dynamic_values(params).len(),
    decreases params.len(),
{
    let attrs = attrs_of(params, base);
    if params.len() > 0 {
        let init = params.drop_last();
        lemma_num_operand_params(init, base);
        let init_attrs = attrs_of(init, base);
        assert forall|i: int| 0 <= i < init.len() implies #[trigger] operand_at(init_attrs)(i)
            == operand_at(attrs)(i) by {
            assert(init[i] == params[i]);
        }
        search::lemma_count_where_same(init.len(), operand_at(init_attrs), operand_at(attrs));
    }
}

/// A slice parameter that is stored in an operation is read back unchanged, wherever the
/// values of the parameters stand among the operands.
pub proof fn law_params_round_trip(
    params: Seq<SliceParam>,
    before: Seq<Value>,
    after: Seq<Value>,
)
    requires
        before.len() + params.len() <= usize::MAX,
    ensures
        params_of(attrs_of(params, before.len()), before + dynamic_values(params) + after) == params,
        refers_within(
            attrs_of(params, before.len()),
            before.len() + dynamic_values(params).len(),
        ),
{
    let base = before.len();
    let values = dynamic_values(params);
    let operands = before + values + after;
    let attrs = attrs_of(params, base);
    let back = params_of(attrs, operands);
    lemma_dynamic_values_bound(params);
    assert forall|i: int| 0 <= i < params.len() implies back[i] == params[i] by {
        if params[i] is Dynamic {
            lemma_dynamic_values_prefix(params, i);
            let k = dynamic_values(params.take(i)).len() as int;
            assert(operands[base + k] == values[k]);
        }
    }
    assert forall|i: int| 0 <= i < attrs.len() implies (#[trigger] attrs[i] matches
        SliceParamAttr::OperandIdx(idx) ==> idx < base + values.len()) by {
        if params[i] is Dynamic {
            lemma_dynamic_values_prefix(params, i);
        }
    }
    assert(back =~= params);
}

/// Stores `params`: values become operands, and what is returned refers to them.
pub fn store_params(params: &Vec<SliceParam>, operands: &mut Vec<Value>) -> (r: Vec<
    SliceParamAttr,
>)
    requires
        old(operands)@.len() + params@.len() <= usize::MAX,
    ensures
        final(operands)@ == old(operands)@ + dynamic_values(params@),
        r@ == attrs_of(params@, old(operands)@.len()),
{
    let ghost before = operands@;
    let mut attrs: Vec<SliceParamAttr> = Vec::new();
    let mut i: usize = 0;
    assert(params@.take(0) =~= Seq::<SliceParam>::empty());
    assert(before + dynamic_values(params@.take(0)) =~= before);
    while i < params.len()
        invariant
            i <= params@.len(),
            before.len() + params@.len() <= usize::MAX,
            operands@ == before + dynamic_values(params@.take(i as int)),
            attrs@ == attrs_of(params@, before.len()).take(i as int),
        decreases params@.len() - i,
    {
        let ghost prefix = params@.take(i as int);
        proof {
            lemma_dynamic_values_bound(prefix);
            assert(params@.take(i + 1).drop_last() =~= prefix);
            assert(params@.take(i + 1).last() == params@[i as int]);
        }
        match params[i] {
            SliceParam::Static(val) => {
                attrs.push(SliceParamAttr::Static(val));
            },
            SliceParam::Dynamic(val) => {
                attrs.push(SliceParamAttr::OperandIdx(operands.len()));
                operands.push(val);
                assert(operands@ =~= before + dynamic_values(params@.take(i + 1)));
            },
        }
        i += 1;
        assert(attrs@ =~= attrs_of(params@, before.len()).take(i as int));
    }
    assert(params@.take(params@.len() as int) =~= params@);
    assert(attrs@ =~= attrs_of(params@, before.len()));
    attrs
}

/// Whether every operand that `attrs` refers to is among the first `num_operands`.
pub fn is_within(attrs: &Vec<SliceParamAttr>, num_operands: usize) -> (r: bool)
    ensures
        r == refers_within(attrs@, num_operands as nat),
{
    let mut i: usize = 0;
    while i < attrs.len()
        invariant
            i <= attrs@.len(),
            refers_within(attrs@.take(i as int), num_operands as nat),
        decreases attrs@.len() - i,
    {
        if let SliceParamAttr::OperandIdx(idx) = attrs[i] {
            if idx >= num_operands {
                assert(attrs@[i as int] matches SliceParamAttr::OperandIdx(k) && k >= num_operands);
                return false;
            }
        }
        let ghost before = attrs@.take(i as int);
        let ghost after = attrs@.take(i + 1);
        assert forall|j: int| 0 <= j < after.len() implies (#[trigger] after[j] matches
            SliceParamAttr::OperandIdx(idx) ==> idx < num_operands) by {
            if j < i {
                assert(after[j] == before[j]);
            }
        }
        i += 1;
    }
    assert(attrs@.take(i as int) =~= attrs@);
    true
}

/// Reads the parameters that `attrs` stand for.
pub fn load_params(attrs: &Vec<SliceParamAttr>, operands: &Vec<Value>) -> (r: Vec<SliceParam>)
    requires
        refers_within(attrs@, operands@.len()),
    ensures
        r@ == params_of(attrs@, operands@),
{
    let mut params: Vec<SliceParam> = Vec::new();
    let mut i: usize = 0;
    while i < attrs.len()
        invariant
            i <= attrs@.len(),
            refers_within(attrs@, operands@.len()),
            params@ == params_of(attrs@, operands@).take(i as int),
        decreases attrs@.len() - i,
    {
        match attrs[i] {
            SliceParamAttr::Static(val) => {
                params.push(SliceParam::Static(val));
            },
            SliceParamAttr::OperandIdx(idx) => {
                assert(attrs@[i as int] matches SliceParamAttr::OperandIdx(k) ==> k < operands@.len());
                params.push(SliceParam::Dynamic(operands[idx]));
            },
        }
        i += 1;
        assert(params@ =~= params_of(attrs@, operands@).take(i as int));
    }
    assert(params@ =~= params_of(attrs@, operands@));
    params
}

/// The number of parameters that are operands.
pub fn count_operand_params(attrs: &Vec<SliceParamAttr>) -> (r: usize)
    ensures
        r == num_operand_params(attrs@),
        r <= attrs@.len(),
{
    let mut n: usize = 0;
    let mut i: usize = 0;
    while i < attrs.len()
        invariant
            n <= i <= attrs@.len(),
            n == search::count_where(i as nat, operand_at(attrs@)),
        decreases attrs@.len() - i,
    {
        if let SliceParamAttr::OperandIdx(_) = attrs[i] {
            n += 1;
        }
        i += 1;
    }
    n
}

/// The first dimension in which the step is the constant zero.
pub fn find_zero_step(steps: &Vec<SliceParamAttr>) -> (r: Option<usize>)
    ensures
        match r {
            Some(dim) => first_zero_step(steps@) == Some(dim as int),
            None => first_zero_step(steps@) is None,
        },
{
    let mut i: usize = 0;
    while i < steps.len()
        invariant
            i <= steps@.len(),
            search::first_where(i as nat, zero_at(steps@)) is None,
        decreases steps@.len() - i,
    {
        if let SliceParamAttr::Static(val) = steps[i] {
            if val == 0 {
                proof {
                    search::lemma_first_where_stable(
                        (i + 1) as nat,
                        steps@.len(),
                        zero_at(steps@),
                    );
                }
                return Some(i);
            }
        }
        i += 1;
    }
    None
}

/// The shape of a slice with the given sizes.
pub fn shape_of_sizes(sizes: &Vec<SliceParam>) -> (r: Vec<Dimension>)
    ensures
        r@ == slice_shape(sizes@),
{
    let mut shape: Vec<Dimension> = Vec::new();
    let mut i: usize = 0;
    while i < sizes.len()
        invariant
            i <= sizes@.len(),
            shape@ == slice_shape(sizes@).take(i as int),
        decreases sizes@.len() - i,
    {
        match sizes[i] {
            SliceParam::Static(val) => {
                shape.push(Dimension::Static(val));
            },
            SliceParam::Dynamic(_) => {
                shape.push(Dimension::Dynamic);
            },
        }
        i += 1;
        assert(shape@ =~= slice_shape(sizes@).take(i as int));
    }
    assert(shape@ =~= slice_shape(sizes@));
    shape
}

/// The parameters of all kinds that are operands.
pub fn count_dynamic_params(params: &SliceParamsAttr) -> (r: usize)
    requires
        params.countable(),
    ensures
        r == params.num_dynamic(),
{
    let offsets: usize = count_operand_params(&params.offsets);
    let sizes: usize = count_operand_params(&params.sizes);
    let steps: usize = count_operand_params(&params.steps);
    offsets + sizes + steps
}

/// What an operation holds of the parameters of a slice: constants and references to
/// operands.
pub open spec fn stored(
    offsets: Seq<SliceParam>,
    sizes: Seq<SliceParam>,
    steps: Seq<SliceParam>,
    base: nat,
) -> (Seq<SliceParamAttr>, Seq<SliceParamAttr>, Seq<SliceParamAttr>) {
    let sizes_base = base + dynamic_values(offsets).len();
    let steps_base = sizes_base + dynamic_values(sizes).len();
    (attrs_of(offsets, base), attrs_of(sizes, sizes_base), attrs_of(steps, steps_base))
}

/// Stores the parameters of a slice behind the operands that are already there.
pub fn store_slice(
    offsets: &Vec<SliceParam>,
    sizes: &Vec<SliceParam>,
    steps: &Vec<SliceParam>,
    operands: &mut Vec<Value>,
) -> (r: SliceParamsAttr)
    requires
        old(operands)@.len() + offsets@.len() + sizes@.len() + steps@.len() <= usize::MAX,
    ensures
        final(operands)@ == old(operands)@ + (dynamic_values(offsets@) + dynamic_values(sizes@)
            + dynamic_values(steps@)),
        (r.offsets@, r.sizes@, r.steps@) == stored(
            offsets@,
            sizes@,
            steps@,
            old(operands)@.len(),
        ),
{
    proof {
        lemma_dynamic_values_bound(offsets@);
        lemma_dynamic_values_bound(sizes@);
    }
    let ghost before = operands@;
    let offset_attrs: Vec<SliceParamAttr> = store_params(offsets, operands);
    let size_attrs: Vec<SliceParamAttr> = store_params(sizes, operands);
    let step_attrs: Vec<SliceParamAttr> = store_params(steps, operands);
    assert(operands@ =~= before + (dynamic_values(offsets@) + dynamic_values(sizes@)
        + dynamic_values(steps@)));
    SliceParamsAttr { offsets: offset_attrs, sizes: size_attrs, steps: step_attrs }
}

/// The parameters of a slice that are stored behind some operands are read back unchanged,
/// and there are exactly as many further operands as there are values among them.
pub proof fn law_slice_round_trip(
    offsets: Seq<SliceParam>,
    sizes: Seq<SliceParam>,
    steps: Seq<SliceParam>,
    before: Seq<Value>,
)
    requires
        before.len() + offsets.len() + sizes.len() + steps.len() <= usize::MAX,
    ensures
        ({
            let (offset_attrs, size_attrs, step_attrs) = stored(
                offsets,
                sizes,
                steps,
                before.len(),
            );
            let values = dynamic_values(offsets) + dynamic_values(sizes) + dynamic_values(steps);
            let operands = before + values;
            &&& params_of(offset_attrs, operands) == offsets
            &&& params_of(size_attrs, operands) == sizes
            &&& params_of(step_attrs, operands) == steps
            &&& refers_within(offset_attrs, operands.len())
            &&& refers_within(size_attrs, operands.len())
            &&& refers_within(step_attrs, operands.len())
            &&& num_operand_params(offset_attrs) + num_operand_params(size_attrs)
                + num_operand_params(step_attrs) == values.len()
        }),
{
    let (offset_attrs, size_attrs, step_attrs) = stored(offsets, sizes, steps, before.len());
    let vo = dynamic_values(offsets);
    let vs = dynamic_values(sizes);
    let vt = dynamic_values(steps);
    let operands = before + (vo + vs + vt);
    lemma_dynamic_values_bound(offsets);
    lemma_dynamic_values_bound(sizes);
    law_params_round_trip(offsets, before, vs + vt);
    assert(before + vo + (vs + vt) =~= operands);
    law_params_round_trip(sizes, before + vo, vt);
    assert(before + vo + vs + vt =~= operands);
    law_params_round_trip(steps, before + vo + vs, Seq::empty());
    assert(before + vo + vs + vt + Seq::<Value>::empty() =~= operands);
    assert((before + vo).len() == before.len() + vo.len());
    assert((before + vo + vs).len() == before.len() + vo.len() + vs.len());
    lemma_num_operand_params(offsets, before.len());
    lemma_num_operand_params(sizes, before.len() + vo.len());
    lemma_num_operand_params(steps, before.len() + vo.len() + vs.len());
}

/// No step is the constant zero.
pub open spec fn steps_move(steps: Seq<SliceParam>) -> bool {
    forall|i: int| 0 <= i < steps.len() ==> #[trigger] steps[i] != SliceParam::Static(0)
}

/// A stored step is the constant zero exactly if the step is.
pub proof fn lemma_steps_move(attrs: Seq<SliceParamAttr>, operands: Seq<Value>)
    ensures
        first_zero_step(attrs) is None <==> steps_move(params_of(attrs, operands)),
{
    let steps = params_of(attrs, operands);
    search::lemma_first_where(attrs.len(), zero_at(attrs));
    if first_zero_step(attrs) is None {
        assert forall|i: int| 0 <= i < steps.len() implies #[trigger] steps[i]
            != SliceParam::Static(0) by {
            assert(!zero_at(attrs)(i));
        }
    } else {
        let i = first_zero_step(attrs)->Some_0;
        assert(steps[i] == SliceParam::Static(0));
    }
}

} // verus!
