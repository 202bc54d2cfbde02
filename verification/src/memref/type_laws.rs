//! What types are lowered to.

use crate::ir::{Context, TypeHandle, TypeView};
use crate::memref::conversions;
use vstd::prelude::*;

verus! {

/// What a word of a descriptor is.
pub enum WordKind {
    Address,
    Number { bits: u32 },
    Other,
}

/// What values of a type are, word by word.
pub open spec fn word_kind(ctx: Context, ty: TypeHandle) -> WordKind {
    match ctx.get(ty) {
        TypeView::Pointer => WordKind::Address,
        TypeView::Integer(integer) => WordKind::Number { bits: integer.width },
        _ => WordKind::Other,
    }
}

/// The words of a field.
pub open spec fn field_kinds(ctx: Context, ty: TypeHandle) -> Seq<WordKind> {
    match ctx.get(ty) {
        TypeView::Array { element_type, length } => Seq::new(
            length as nat,
            |i: int| word_kind(ctx, element_type),
        ),
        _ => seq![word_kind(ctx, ty)],
    }
}

/// The words of fields, one after the other.
pub open spec fn kinds(ctx: Context, fields: Seq<TypeHandle>) -> Seq<WordKind>
    decreases fields.len(),
{
    if fields.len() == 0 {
        Seq::empty()
    } else {
        kinds(ctx, fields.drop_last()) + field_kinds(ctx, fields.last())
    }
}

/// A memref is lowered to two addresses, and then a 64-bit number for the offset and for each size
/// and each stride: the words that a descriptor has in memory. Other types are not lowered.
pub proof fn law_lowered_words(ctx: Context, ty: TypeView)
    requires
        ctx.wf(),
        conversions::holds_lowered(ctx, ty),
        ty matches TypeView::RankedMemref { element_type, shape } ==> shape.len() <= u64::MAX,
    ensures
        match ty {
            TypeView::RankedMemref { element_type, shape } => conversions::lowered_type(
                ctx,
                ty,
            ) matches TypeView::Struct(fields) && kinds(ctx, fields) == Seq::new(
                3 + 2 * shape.len(),
                |i: int|
                    if i < 2 {
                        WordKind::Address
                    } else {
                        WordKind::Number { bits: 64 }
                    },
            ),
            _ => conversions::lowered_type(ctx, ty) == ty,
        },
{
    if let TypeView::RankedMemref { element_type, shape } = ty {
        let rank = shape.len();
        let pointer = ctx.handle_of(TypeView::Pointer);
        let word = ctx.handle_of(conversions::word_type());
        let words = ctx.handle_of(conversions::words_type(ctx, rank));
        let none = Seq::<TypeHandle>::empty();
        let fields = seq![pointer, pointer, word, words, words];
        assert(ctx.get(pointer) == TypeView::Pointer);
        assert(ctx.get(word) == conversions::word_type());
        assert(ctx.get(words) == conversions::words_type(ctx, rank));
        let f1 = none.push(pointer);
        let f2 = f1.push(pointer);
        let f3 = f2.push(word);
        let f4 = f3.push(words);
        assert(f1.drop_last() =~= none);
        assert(f2.drop_last() =~= f1);
        assert(f3.drop_last() =~= f2);
        assert(f4.drop_last() =~= f3);
        assert(fields.drop_last() =~= f4);
        let number = WordKind::Number { bits: 64 };
        let address = WordKind::Address;
        assert(kinds(ctx, none) =~= Seq::<WordKind>::empty());
        assert(kinds(ctx, f1) =~= seq![address]);
        assert(kinds(ctx, f2) =~= seq![address, address]);
        assert(kinds(ctx, f3) =~= seq![address, address, number]);
        let many = Seq::new(rank, |i: int| number);
        assert(field_kinds(ctx, words) =~= many);
        assert(kinds(ctx, f4) =~= seq![address, address, number] + many);
        assert(kinds(ctx, fields) =~= seq![address, address, number] + many + many);
        assert(kinds(ctx, fields) =~= Seq::new(
            3 + 2 * rank,
            |i: int|
                if i < 2 {
                    WordKind::Address
                } else {
                    WordKind::Number { bits: 64 }
                },
        ));
    }
}

/// The signature of a lowered function has as many arguments, each lowered on its own.
pub proof fn law_lowered_signature(ctx: Context, signature: TypeView, i: int)
    requires
        ctx.wf(),
        signature is Function,
        0 <= i < signature->Function_arguments.len(),
        conversions::holds_all_lowered(ctx, signature->Function_arguments),
        conversions::holds_lowered(ctx, ctx.get(signature->Function_result)),
    ensures
        conversions::lowered_signature(ctx, signature) matches TypeView::Function {
            result,
            arguments,
        } && arguments.len() == signature->Function_arguments.len() && is_lowered(
            ctx,
            result,
            signature->Function_result,
        ) && is_lowered(ctx, arguments[i], signature->Function_arguments[i]),
{
    let argument = signature->Function_arguments[i];
    assert(conversions::holds_lowered(ctx, ctx.get(argument)));
}

/// The type is a descriptor where the other one is a memref, and the same otherwise.
pub open spec fn is_lowered(ctx: Context, lowered: TypeHandle, ty: TypeHandle) -> bool {
    if ctx.as_memref(ty) is Some {
        ctx.get(lowered) is Struct
    } else {
        ctx.get(lowered) == ctx.get(ty)
    }
}

} // verus!
