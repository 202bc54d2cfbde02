//! Lowering of constants: each becomes a named global, and a reference to it.

use crate::ir::{Context, TypeHandle};
use crate::memref;
use crate::memref::attributes;
use crate::memref::attributes::{
    DenseElementsAttr, DenseElementsErr, DenseElementsView, ShapedTypeHandle,
};
use crate::memref::elements;
use crate::memref::elements::ElementType;
use crate::memref::type_interfaces;
use crate::memref::type_interfaces::Dimension;
use crate::tensor::bufferize::{Alias, DefiningEntity};
use crate::tensor::conversions;
use crate::text;
use crate::text::CharClass;
use vstd::prelude::*;

verus! {

#[derive(Clone, Copy, Debug, PartialEq, Eq, Structural)]
pub enum ConstantOpConversionErr {
    NearestSymbolTableNotFound,
}

/// Why a constant is not lowered.
#[derive(Clone, Copy, Debug, PartialEq, Eq, Structural)]
pub enum ConstantErr {
    /// The elements do not fit the memref type.
    Value(DenseElementsErr),
    Conversion(ConstantOpConversionErr),
}

// Names
/// The name of an element type, without its dialect.
pub open spec fn short_name(element: ElementType) -> Seq<char> {
    match element {
        ElementType::Half => "fp16"@,
        ElementType::Single => "fp32"@,
        ElementType::Double => "fp64"@,
        ElementType::Integer(_) => "integer"@,
    }
}

/// Each extent, with an `x` behind it.
pub open spec fn extents_text(shape: Seq<Dimension>) -> Seq<char>
    decreases shape.len(),
{
    if shape.len() == 0 {
        Seq::empty()
    } else {
        extents_text(shape.drop_last()) + text::decimal(shape.last()->Static_0 as nat) + "x"@
    }
}

/// The name of a constant, made of its shape, its element type and the size of an element.
pub open spec fn global_name(shape: Seq<Dimension>, element: ElementType) -> Seq<char> {
    "__constant_"@ + extents_text(shape) + short_name(element) + "_"@ + text::decimal(
        element.size(),
    ) + "B"@
}

/// The name of a constant of type `ty`.
pub open spec fn hint_for(ctx: Context, ty: ShapedTypeHandle) -> Seq<char> {
    global_name(attributes::shaped(ctx, ty)->0.shape, attributes::dense_element(ctx, ty)->0)
}

/// A name with a number behind it.
pub open spec fn numbered(hint: Seq<char>, count: nat) -> Seq<char> {
    hint + "_"@ + text::decimal(count)
}

/// The name is taken.
pub open spec fn taken(symbols: Seq<Vec<char>>, name: Seq<char>) -> bool {
    exists|i: int| 0 <= i < symbols.len() && (#[trigger] symbols[i])@ == name
}

/// Names with different numbers differ.
pub proof fn law_numbered_distinct(hint: Seq<char>, a: nat, b: nat)
    ensures
        numbered(hint, a) == numbered(hint, b) <==> a == b,
{
    if numbered(hint, a) == numbered(hint, b) {
        let n = (hint + "_"@).len() as int;
        assert(numbered(hint, a).skip(n) =~= text::decimal(a));
        assert(numbered(hint, b).skip(n) =~= text::decimal(b));
        text::law_decimal(a);
        text::law_decimal(b);
    }
}

/// The name of a constant is an identifier, with a number behind it too.
pub proof fn law_global_name_is_identifier(shape: Seq<Dimension>, element: ElementType, count: nat)
    ensures
        text::is_identifier(global_name(shape, element)),
        text::is_identifier(numbered(global_name(shape, element), count)),
{
    reveal_strlit("__constant_");
    reveal_strlit("_");
    reveal_strlit("B");
    reveal_strlit("fp16");
    reveal_strlit("fp32");
    reveal_strlit("fp64");
    reveal_strlit("integer");
    lemma_extents_are_words(shape);
    lemma_decimal_is_word(element.size());
    lemma_decimal_is_word(count);
    let head = "__constant_"@ + extents_text(shape);
    lemma_words("__constant_"@, extents_text(shape));
    lemma_words(head, short_name(element));
    lemma_words(head + short_name(element), "_"@);
    let body = head + short_name(element) + "_"@;
    lemma_words(body, text::decimal(element.size()));
    lemma_words(body + text::decimal(element.size()), "B"@);
    let name = global_name(shape, element);
    lemma_words(name, "_"@);
    lemma_words(name + "_"@, text::decimal(count));
    assert(name[0] == "__constant_"@[0]);
    assert(numbered(name, count)[0] == name[0]);
}

/// All characters are letters, digits or underscores.
spec fn all_words(s: Seq<char>) -> bool {
    forall|i: int| 0 <= i < s.len() ==> text::in_class(CharClass::Word, #[trigger] s[i])
}

proof fn lemma_words(a: Seq<char>, b: Seq<char>)
    requires
        all_words(a),
        all_words(b),
    ensures
        all_words(a + b),
{
    assert forall|i: int| 0 <= i < (a + b).len() implies text::in_class(
        CharClass::Word,
        #[trigger] (a + b)[i],
    ) by {
        if i < a.len() {
            assert((a + b)[i] == a[i]);
        } else {
            assert((a + b)[i] == b[i - a.len()]);
        }
    }
}

proof fn lemma_decimal_is_word(n: nat)
    ensures
        all_words(text::decimal(n)),
{
    text::law_decimal(n);
    assert forall|i: int| 0 <= i < text::decimal(n).len() implies text::in_class(
        CharClass::Word,
        #[trigger] text::decimal(n)[i],
    ) by {
        assert(text::is_digit(text::decimal(n)[i]));
    }
}

proof fn lemma_extents_are_words(shape: Seq<Dimension>)
    ensures
        all_words(extents_text(shape)),
    decreases shape.len(),
{
    if shape.len() > 0 {
        reveal_strlit("x");
        let digits = text::decimal(shape.last()->Static_0 as nat);
        lemma_extents_are_words(shape.drop_last());
        lemma_decimal_is_word(shape.last()->Static_0 as nat);
        lemma_words(extents_text(shape.drop_last()), digits);
        lemma_words(extents_text(shape.drop_last()) + digits, "x"@);
    }
}

/// The name of a constant, made of its shape, its element type and the size of an element.
pub fn constant_global_name(ctx: &Context, value: &DenseElementsAttr) -> (r: Vec<char>)
    requires
        value@.valid(*ctx),
    ensures
        r@ == hint_for(*ctx, value@.ty),
{
    let (_, shape) = attributes::read_shaped(ctx, value.ty());
    let element: ElementType = value.element_type(ctx);
    let mut name: Vec<char> = Vec::new();
    text::push_str(&mut name, "__constant_");
    let mut i: usize = 0;
    assert(name@ =~= "__constant_"@ + extents_text(shape@.take(0)));
    while i < shape.len()
        invariant
            i <= shape@.len(),
            type_interfaces::fully_static(shape@),
            name@ == "__constant_"@ + extents_text(shape@.take(i as int)),
        decreases shape@.len() - i,
    {
        assert(shape@[i as int] is Static);
        let extent: usize = match shape[i] {
            Dimension::Static(extent) => extent,
            Dimension::Dynamic => 0,
        };
        let digits: Vec<char> = text::make_decimal(extent);
        text::push_text(&mut name, digits.as_slice());
        text::push_str(&mut name, "x");
        i += 1;
        proof {
            let now = shape@.take(i as int);
            assert(now.drop_last() =~= shape@.take(i - 1));
            assert(name@ =~= "__constant_"@ + extents_text(now));
        }
    }
    assert(shape@.take(shape@.len() as int) =~= shape@);
    match element {
        ElementType::Half => text::push_str(&mut name, "fp16"),
        ElementType::Single => text::push_str(&mut name, "fp32"),
        ElementType::Double => text::push_str(&mut name, "fp64"),
        ElementType::Integer(_) => text::push_str(&mut name, "integer"),
    }
    text::push_str(&mut name, "_");
    let size: Vec<char> = text::make_decimal(element.element_size());
    text::push_text(&mut name, size.as_slice());
    text::push_str(&mut name, "B");
    assert(name@ =~= global_name(shape@, element));
    name
}

fn append_count(hint: &Vec<char>, count: usize) -> (r: Vec<char>)
    ensures
        r@ == numbered(hint@, count as nat),
{
    let mut name: Vec<char> = Vec::new();
    text::push_text(&mut name, hint.as_slice());
    text::push_str(&mut name, "_");
    let digits: Vec<char> = text::make_decimal(count);
    text::push_text(&mut name, digits.as_slice());
    assert(name@ =~= numbered(hint@, count as nat));
    name
}

fn is_taken(symbols: &Vec<Vec<char>>, name: &Vec<char>) -> (r: bool)
    ensures
        r == taken(symbols@, name@),
{
    let mut i: usize = 0;
    while i < symbols.len()
        invariant
            i <= symbols@.len(),
            forall|k: int| 0 <= k < i ==> (#[trigger] symbols@[k])@ != name@,
        decreases symbols@.len() - i,
    {
        if symbols[i].len() == name.len() && text::stands_at(
            symbols[i].as_slice(),
            0,
            name.as_slice(),
        ) {
            proof {
                let s = symbols@[i as int]@;
                assert forall|k: int| 0 <= k < name@.len() implies s[k] == name@[k] by {
                    assert(s[0 + k] == name@[k]);
                }
                assert(s =~= name@);
            }
            return true;
        }
        proof {
            let s = symbols@[i as int]@;
            if s == name@ {
                assert(text::occurs_at(s, 0, name@));
            }
        }
        i += 1;
    }
    false
}

/// As many names as the numbers from `start` to `end` make are taken only if there are as many
/// symbols.
proof fn lemma_enough_symbols(symbols: Seq<Vec<char>>, hint: Seq<char>, start: nat, end: nat)
    requires
        start <= end,
        forall|k: nat| start <= k < end ==> taken(symbols, #[trigger] numbered(hint, k)),
    ensures
        end - start <= symbols.len(),
{
    let texts = Seq::new(symbols.len(), |i: int| symbols[i]@);
    let names = Seq::new((end - start) as nat, |j: int| numbered(hint, (start + j) as nat));
    assert(names.no_duplicates()) by {
        assert forall|i: int, j: int| 0 <= i < names.len() && 0 <= j < names.len() && i != j implies
            names[i] != names[j] by {
            law_numbered_distinct(hint, (start + i) as nat, (start + j) as nat);
        }
    }
    names.unique_seq_to_set();
    assert(names.to_set().subset_of(texts.to_set())) by {
        assert forall|name: Seq<char>| names.to_set().contains(name) implies texts.to_set().contains(
            name,
        ) by {
            let j = choose|j: int| 0 <= j < names.len() && names[j] == name;
            assert(taken(symbols, numbered(hint, (start + j) as nat)));
            let i = choose|i: int| 0 <= i < symbols.len() && (#[trigger] symbols[i])@ == name;
            assert(texts[i] == name);
        }
    }
    vstd::set_lib::lemma_len_subset(names.to_set(), texts.to_set());
    texts.lemma_cardinality_of_set();
}

/// The first number from `counter` on that makes `hint` a name that is not taken.
pub open spec fn first_free(symbols: Seq<Vec<char>>, hint: Seq<char>, counter: nat, n: nat) -> bool {
    &&& counter <= n
    &&& !taken(symbols, numbered(hint, n))
    &&& forall|k: nat| counter <= k < n ==> taken(symbols, #[trigger] numbered(hint, k))
}

/// There is one such number, and it is at most as far away as there are symbols.
pub proof fn law_first_free(symbols: Seq<Vec<char>>, hint: Seq<char>, counter: nat, a: nat, b: nat)
    requires
        first_free(symbols, hint, counter, a),
    ensures
        a - counter <= symbols.len(),
        first_free(symbols, hint, counter, b) ==> a == b,
{
    lemma_enough_symbols(symbols, hint, counter, a);
    if first_free(symbols, hint, counter, b) {
        if a < b {
            assert(taken(symbols, numbered(hint, a)));
        } else if b < a {
            assert(taken(symbols, numbered(hint, b)));
        }
    }
}

/// The name is made of `hint` and the first number that makes it one that is not taken, and
/// the counter has moved behind that number.
pub open spec fn claimed(
    symbols: Seq<Vec<char>>,
    hint: Seq<char>,
    before: usize,
    after: usize,
    name: Seq<char>,
) -> bool {
    &&& before < after
    &&& first_free(symbols, hint, before as nat, (after - 1) as nat)
    &&& name == numbered(hint, (after - 1) as nat)
}

/// A name that was claimed is none of the symbols, begins with the hint, and differs from every
/// name that is claimed later for the same hint.
pub proof fn law_claimed_names(
    symbols: Seq<Vec<char>>,
    later_symbols: Seq<Vec<char>>,
    hint: Seq<char>,
    before: usize,
    after: usize,
    name: Seq<char>,
    later_before: usize,
    later_after: usize,
    later_name: Seq<char>,
)
    requires
        claimed(symbols, hint, before, after, name),
        claimed(later_symbols, hint, later_before, later_after, later_name),
        after <= later_before,
    ensures
        forall|i: int| 0 <= i < symbols.len() ==> (#[trigger] symbols[i])@ != name,
        name.len() > hint.len(),
        name.take(hint.len() as int) == hint,
        name != later_name,
{
    law_numbered_distinct(hint, (after - 1) as nat, (later_after - 1) as nat);
    assert forall|i: int| 0 <= i < symbols.len() implies (#[trigger] symbols[i])@ != name by {
        assert(!taken(symbols, name));
    }
    reveal_strlit("_");
    assert(name.take(hint.len() as int) =~= hint);
}

/// A name that is not taken: `hint` with the first number behind it that makes it one. The
/// counter is moved behind that number.
pub fn unique_name(symbols: &Vec<Vec<char>>, hint: &Vec<char>, counter: &mut usize) -> (r: Vec<char>)
    requires
        *old(counter) + symbols@.len() < usize::MAX,
    ensures
        claimed(symbols@, hint@, *old(counter), *final(counter), r@),
{
    let start: usize = *counter;
    let mut count: usize = start;
    let mut name: Vec<char> = append_count(hint, count);
    while is_taken(symbols, &name)
        invariant
            start <= count <= start + symbols@.len(),
            start + symbols@.len() < usize::MAX,
            name@ == numbered(hint@, count as nat),
            forall|k: nat| start <= k < count ==> taken(symbols@, #[trigger] numbered(hint@, k)),
        decreases start + symbols@.len() - count,
    {
        proof {
            lemma_enough_symbols(symbols@, hint@, start as nat, (count + 1) as nat);
        }
        count += 1;
        name = append_count(hint, count);
    }
    *counter = count + 1;
    name
}

// Operations
/// Memory with a name, and what it holds.
#[derive(Debug)]
pub struct GlobalOp {
    pub name: Vec<char>,
    pub ty: ShapedTypeHandle,
    pub value: DenseElementsAttr,
    pub is_constant: bool,
}

/// The address of memory with a name.
#[derive(Debug)]
pub struct GetGlobalOp {
    pub name: Vec<char>,
    pub ty: ShapedTypeHandle,
}

/// A constant tensor.
#[derive(Debug)]
pub struct ConstantOp {
    pub value: DenseElementsAttr,
    pub result_type: TypeHandle,
}

/// A global that holds `value` under a name that is not taken. Without a symbol table there is
/// none.
pub fn create_constant_global(
    ctx: &Context,
    symbols: Option<&Vec<Vec<char>>>,
    counter: &mut usize,
    ty: ShapedTypeHandle,
    value: DenseElementsAttr,
) -> (r: Result<GlobalOp, ConstantOpConversionErr>)
    requires
        value@.valid(*ctx),
        symbols matches Some(names) ==> *old(counter) + names@.len() < usize::MAX,
    ensures
        match r {
            Ok(global) => {
                &&& symbols is Some
                &&& claimed(
                    symbols->0@,
                    hint_for(*ctx, value@.ty),
                    *old(counter),
                    *final(counter),
                    global.name@,
                )
                &&& global.ty == ty
                &&& global.value@ == value@
                &&& global.is_constant
            },
            Err(error) => symbols is None && *final(counter) == *old(counter) && error
                == ConstantOpConversionErr::NearestSymbolTableNotFound,
        },
{
    match symbols {
        Some(names) => {
            let hint: Vec<char> = constant_global_name(ctx, &value);
            let name: Vec<char> = unique_name(names, &hint, counter);
            Ok(GlobalOp { name, ty, value, is_constant: true })
        },
        None => Err(ConstantOpConversionErr::NearestSymbolTableNotFound),
    }
}

impl ConstantOp {
    /// The result is a ranked tensor, whose bytes can be counted.
    pub open spec fn wf(&self, ctx: Context) -> bool {
        attributes::holdable(ctx, self.result_type) && ctx.as_tensor(self.result_type) is Some
    }

    /// The elements, typed as a memref.
    pub open spec fn stored(&self, ctx: Context) -> DenseElementsView {
        DenseElementsView {
            ty: conversions::stored_handle(ctx, self.result_type),
            data: self.value@.data,
        }
    }

    /// There is no operand to read.
    pub fn operand_bufferizes_to_memory_read(&self, opd: usize) -> (r: bool)
        ensures
            !r,
    {
        false
    }

    /// There is no operand to write to.
    pub fn operand_bufferizes_to_memory_write(&self, opd: usize) -> (r: bool)
        ensures
            !r,
    {
        false
    }

    /// There is no operand to share a buffer with.
    pub fn get_operand_result_aliases(&self) -> (r: Vec<Alias>)
        ensures
            r@.len() == 0,
    {
        Vec::new()
    }

    /// The memory of a constant cannot be written in place.
    pub fn is_writable(&self, definer: DefiningEntity) -> (r: bool)
        ensures
            !r,
    {
        false
    }

    /// The global that holds the elements, and the reference to it that takes the place of the
    /// operation.
    pub fn rewrite(
        self,
        ctx: &mut Context,
        symbols: Option<&Vec<Vec<char>>>,
        counter: &mut usize,
    ) -> (r: Result<(GlobalOp, GetGlobalOp), ConstantErr>)
        requires
            old(ctx).wf(),
            self.wf(*old(ctx)),
            symbols matches Some(names) ==> *old(counter) + names@.len() < usize::MAX,
        ensures
            final(ctx).wf(),
            final(ctx).extends(*old(ctx)),
            final(ctx).holds(memref::stored_as(final(ctx).get(self.result_type))),
            ({
                let stored = self.stored(*final(ctx));
                let verdict = attributes::dense_verdict(
                    *final(ctx),
                    stored.ty,
                    stored.data.len(),
                );
                match r {
                    Ok((global, get_global)) => {
                        &&& verdict is Ok
                        &&& symbols is Some
                        &&& claimed(
                            symbols->0@,
                            hint_for(*final(ctx), stored.ty),
                            *old(counter),
                            *final(counter),
                            global.name@,
                        )
                        &&& global.ty == stored.ty
                        &&& global.value@ == stored
                        &&& global.is_constant
                        &&& get_global.name@ == global.name@
                        &&& get_global.ty == stored.ty
                    },
                    Err(ConstantErr::Value(error)) => verdict == Err::<(), DenseElementsErr>(error)
                        && *final(counter) == *old(counter),
                    Err(ConstantErr::Conversion(error)) => verdict is Ok && symbols is None
                        && *final(counter) == *old(counter) && error
                        == ConstantOpConversionErr::NearestSymbolTableNotFound,
                }
            }),
    {
        let ghost start = *ctx;
        let ty: TypeHandle = conversions::tensor_type_to_memref_type(self.result_type, ctx);
        proof {
            let tensor = attributes::shaped(start, self.result_type)->0;
            assert(ctx@[self.result_type.id as int] == start@[self.result_type.id as int]);
            assert(ctx@[tensor.element_type.id as int] == start@[tensor.element_type.id as int]);
            assert(attributes::holdable(*ctx, ty));
        }
        let mut value: DenseElementsAttr = self.value;
        if let Err(error) = value.set_type(ctx, ty) {
            return Err(ConstantErr::Value(error));
        }
        match create_constant_global(ctx, symbols, counter, ty, value) {
            Ok(global) => {
                let mut name: Vec<char> = Vec::new();
                text::push_text(&mut name, global.name.as_slice());
                assert(name@ =~= global.name@);
                Ok((global, GetGlobalOp { name, ty }))
            },
            Err(error) => Err(ConstantErr::Conversion(error)),
        }
    }
}

} // verus!
