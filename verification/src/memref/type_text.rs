//! Types as text: those that the library knows, and those of other dialects, which were read
//! beforehand.

use crate::ir;
use crate::ir::{Context, TypeHandle, TypeObj, TypeView};
use crate::memref::attributes::ParseErr;
use crate::memref::dense_text;
use crate::memref::dense_text::ShapedKind;
use crate::memref::elements::ElementType;
use crate::memref::type_interfaces::Dimension;
use crate::memref::types::{RankedMemrefType, UnrankedMemrefType};
use crate::search;
use crate::tensor::types::{RankedTensorType, UnrankedTensorType};
use crate::text;
use crate::text::CharClass;
use crate::tokens;
use vstd::prelude::*;

verus! {

/// A type of another dialect in a text: it begins at `at` and ends at `end`.
#[derive(Clone, Copy, Debug, PartialEq, Eq, Structural)]
pub struct ForeignType {
    pub at: usize,
    pub end: usize,
    pub ty: TypeHandle,
}

/// The types are of the context and lie in a text of so many characters.
pub open spec fn all_foreign(ctx: Context, foreign: Seq<ForeignType>, len: nat) -> bool {
    forall|i: int|
        0 <= i < foreign.len() ==> ctx.has((#[trigger] foreign[i]).ty) && foreign[i].at
            <= foreign[i].end <= len
}

/// The type at each index begins at `pos`.
pub open spec fn begins_at(foreign: Seq<ForeignType>, pos: int) -> spec_fn(int) -> bool {
    |i: int| foreign[i].at == pos
}

/// The first type that begins at `pos`, if there is one.
pub open spec fn foreign_at(foreign: Seq<ForeignType>, pos: int) -> Option<ForeignType> {
    match search::first_where(foreign.len(), begins_at(foreign, pos)) {
        Some(i) => Some(foreign[i]),
        None => None,
    }
}

/// A type apart from any context, but for those of other dialects.
pub enum TypeTree {
    Element(ElementType),
    Index,
    Ranked { kind: ShapedKind, shape: Seq<Dimension>, element: Box<TypeTree> },
    Unranked { kind: ShapedKind, element: Box<TypeTree> },
    Foreign(TypeHandle),
}

/// A type with a shape.
pub open spec fn ranked_view(
    kind: ShapedKind,
    element_type: TypeHandle,
    shape: Seq<Dimension>,
) -> TypeView {
    match kind {
        ShapedKind::Tensor => TypeView::RankedTensor { element_type, shape },
        ShapedKind::Memref => TypeView::RankedMemref { element_type, shape },
    }
}

/// A type without a shape.
pub open spec fn unranked_view(kind: ShapedKind, element_type: TypeHandle) -> TypeView {
    match kind {
        ShapedKind::Tensor => TypeView::UnrankedTensor(element_type),
        ShapedKind::Memref => TypeView::UnrankedMemref(element_type),
    }
}

impl TypeTree {
    /// The handle of the type.
    pub open spec fn handle(self, ctx: Context) -> TypeHandle
        decreases self,
    {
        match self {
            TypeTree::Element(element) => ctx.handle_of(dense_text::element_view(element)),
            TypeTree::Index => ctx.handle_of(TypeView::Index),
            TypeTree::Ranked { kind, shape, element } => ctx.handle_of(
                ranked_view(kind, element.handle(ctx), shape),
            ),
            TypeTree::Unranked { kind, element } => ctx.handle_of(
                unranked_view(kind, element.handle(ctx)),
            ),
            TypeTree::Foreign(ty) => ty,
        }
    }

    /// The context holds the type and all that it is made of.
    pub open spec fn held(self, ctx: Context) -> bool
        decreases self,
    {
        match self {
            TypeTree::Element(element) => ctx.holds(dense_text::element_view(element)),
            TypeTree::Index => ctx.holds(TypeView::Index),
            TypeTree::Ranked { kind, shape, element } => element.held(ctx) && ctx.holds(
                ranked_view(kind, element.handle(ctx), shape),
            ),
            TypeTree::Unranked { kind, element } => element.held(ctx) && ctx.holds(
                unranked_view(kind, element.handle(ctx)),
            ),
            TypeTree::Foreign(ty) => ctx.has(ty),
        }
    }
}

/// A type stays under its handle in a context that extends the one that holds it.
pub proof fn lemma_tree_extends(tree: TypeTree, ctx: Context, earlier: Context)
    requires
        ctx.wf(),
        ctx.extends(earlier),
        tree.held(earlier),
    ensures
        tree.held(ctx),
        tree.handle(ctx) == tree.handle(earlier),
    decreases tree,
{
    match tree {
        TypeTree::Element(element) => {
            ir::lemma_extends(ctx, earlier, dense_text::element_view(element));
        },
        TypeTree::Index => {
            ir::lemma_extends(ctx, earlier, TypeView::Index);
        },
        TypeTree::Ranked { kind, shape, element } => {
            lemma_tree_extends(*element, ctx, earlier);
            ir::lemma_extends(ctx, earlier, ranked_view(kind, element.handle(earlier), shape));
        },
        TypeTree::Unranked { kind, element } => {
            lemma_tree_extends(*element, ctx, earlier);
            ir::lemma_extends(ctx, earlier, unranked_view(kind, element.handle(earlier)));
        },
        TypeTree::Foreign(_) => {},
    }
}

/// The shape behind the name of a type, and where the element type begins.
pub open spec fn shape_at(t: Seq<char>, pos: int) -> Result<(Seq<Dimension>, int), ParseErr> {
    match tokens::spaced_at(t, pos, "<"@) {
        Err(error) => Err(error),
        Ok(first) => match dense_text::dims_at(t, first) {
            Err(error) => Err(error),
            Ok((shape, colon)) => match tokens::spaced_at(t, colon, ":"@) {
                Err(error) => Err(error),
                Ok(inner) => Ok((shape, inner)),
            },
        },
    }
}

proof fn lemma_spaced_end(t: Seq<char>, pos: int, piece: Seq<char>)
    requires
        0 <= pos <= t.len(),
    ensures
        tokens::spaced_at(t, pos, piece) matches Ok(end) ==> pos <= end <= t.len(),
{
    tokens::lemma_spaces_end(t, pos);
    if let Ok(_) = tokens::spaced_at(t, pos, piece) {
        tokens::lemma_spaces_end(t, text::spaces_end(t, pos) + piece.len());
    }
}

proof fn lemma_shape_end(t: Seq<char>, pos: int)
    requires
        0 <= pos <= t.len(),
    ensures
        shape_at(t, pos) matches Ok((_, inner)) ==> pos <= inner <= t.len(),
{
    lemma_spaced_end(t, pos, "<"@);
    if let Ok(first) = tokens::spaced_at(t, pos, "<"@) {
        dense_text::lemma_dims_error(t, first);
        if let Ok((_, colon)) = dense_text::dims_at(t, first) {
            lemma_spaced_end(t, colon, ":"@);
        }
    }
}

proof fn lemma_name_end(t: Seq<char>, pos: int)
    requires
        0 <= pos <= t.len(),
    ensures
        dense_text::type_name_end(t, text::spaces_end(t, pos)) matches Some(end) ==> pos < end
            <= t.len(),
{
    tokens::lemma_spaces_end(t, pos);
    let start = text::spaces_end(t, pos);
    text::lemma_run_end(t, start, CharClass::Word);
    let dot = text::run_end(t, start, CharClass::Word);
    if dot < t.len() {
        text::lemma_run_end(t, dot + 1, CharClass::Word);
    }
}

/// The type at `pos`, and where it ends.
pub open spec fn type_at(foreign: Seq<ForeignType>, t: Seq<char>, pos: int) -> Result<
    (TypeTree, int),
    ParseErr,
>
    decreases t.len() - pos,
    when 0 <= pos <= t.len()
    via type_at_decreases
{
    let start = text::spaces_end(t, pos);
    match dense_text::type_name_end(t, start) {
        None => Err(ParseErr::Unexpected { at: start as usize }),
        Some(end) => {
            let name = t.subrange(start, end);
            if name == "tensor.ranked"@ || name == "memref.ranked"@ {
                let kind = if name == "tensor.ranked"@ {
                    ShapedKind::Tensor
                } else {
                    ShapedKind::Memref
                };
                match shape_at(t, end) {
                    Err(error) => Err(error),
                    Ok((shape, inner)) => match type_at(foreign, t, inner) {
                        Err(error) => Err(error),
                        Ok((element, close)) => match tokens::spaced_at(t, close, ">"@) {
                            Err(error) => Err(error),
                            Ok(stop) => Ok(
                                (TypeTree::Ranked { kind, shape, element: Box::new(element) }, stop),
                            ),
                        },
                    },
                }
            } else if name == "tensor.unranked"@ || name == "memref.unranked"@ {
                let kind = if name == "tensor.unranked"@ {
                    ShapedKind::Tensor
                } else {
                    ShapedKind::Memref
                };
                match tokens::spaced_at(t, end, "<"@) {
                    Err(error) => Err(error),
                    Ok(inner) => match type_at(foreign, t, inner) {
                        Err(error) => Err(error),
                        Ok((element, close)) => match tokens::spaced_at(t, close, ">"@) {
                            Err(error) => Err(error),
                            Ok(stop) => Ok(
                                (TypeTree::Unranked { kind, element: Box::new(element) }, stop),
                            ),
                        },
                    },
                }
            } else if name == "index.index"@ {
                Ok((TypeTree::Index, text::spaces_end(t, end)))
            } else {
                match dense_text::element_type_at(t, pos) {
                    Ok((element, stop)) => Ok((TypeTree::Element(element), stop)),
                    Err(ParseErr::UnknownType { at }) => match foreign_at(foreign, pos) {
                        Some(entry) => Ok((TypeTree::Foreign(entry.ty), entry.end as int)),
                        None => Err(ParseErr::UnknownType { at }),
                    },
                    Err(error) => Err(error),
                }
            }
        },
    }
}

#[via_fn]
proof fn type_at_decreases(foreign: Seq<ForeignType>, t: Seq<char>, pos: int) {
    lemma_name_end(t, pos);
    let start = text::spaces_end(t, pos);
    if let Some(end) = dense_text::type_name_end(t, start) {
        lemma_shape_end(t, end);
        lemma_spaced_end(t, end, "<"@);
    }
}

/// The first type that begins at `pos`, if there is one.
fn find_foreign(foreign: &[ForeignType], pos: usize) -> (r: Option<ForeignType>)
    ensures
        r == foreign_at(foreign@, pos as int),
{
    let ghost starts = begins_at(foreign@, pos as int);
    let mut i: usize = 0;
    while i < foreign.len()
        invariant
            i <= foreign@.len(),
            starts == begins_at(foreign@, pos as int),
            forall|j: int| 0 <= j < i ==> !#[trigger] starts(j),
        decreases foreign@.len() - i,
    {
        if foreign[i].at == pos {
            proof {
                assert(starts(i as int));
                search::lemma_first_where(foreign@.len(), starts);
            }
            return Some(foreign[i]);
        }
        assert(!starts(i as int));
        i += 1;
    }
    proof {
        search::lemma_first_where(foreign@.len(), starts);
    }
    None
}

fn parse_shape(t: &[char], pos: usize) -> (r: Result<(Vec<Dimension>, usize), ParseErr>)
    requires
        pos <= t@.len(),
    ensures
        match r {
            Ok((shape, inner)) => shape_at(t@, pos as int) == Ok::<
                (Seq<Dimension>, int),
                ParseErr,
            >((shape@, inner as int)) && pos <= inner <= t@.len(),
            Err(error) => shape_at(t@, pos as int) == Err::<(Seq<Dimension>, int), ParseErr>(error),
        },
{
    let first: usize = match tokens::parse_spaced(t, pos, "<") {
        Ok(first) => first,
        Err(error) => {
            return Err(error);
        },
    };
    let (shape, colon) = match dense_text::parse_dims(t, first) {
        Ok(parsed) => parsed,
        Err(error) => {
            return Err(error);
        },
    };
    match tokens::parse_spaced(t, colon, ":") {
        Ok(inner) => Ok((shape, inner)),
        Err(error) => Err(error),
    }
}

/// Adds the type of elements to the context.
pub fn intern_element(ctx: &mut Context, element: ElementType) -> (r: TypeHandle)
    requires
        old(ctx).wf(),
    ensures
        final(ctx).wf(),
        final(ctx).extends(*old(ctx)),
        TypeTree::Element(element).held(*final(ctx)),
        r == TypeTree::Element(element).handle(*final(ctx)),
{
    let obj: TypeObj = match element {
        ElementType::Half => TypeObj::FP16,
        ElementType::Single => TypeObj::FP32,
        ElementType::Double => TypeObj::FP64,
        ElementType::Integer(integer) => TypeObj::Integer(integer),
    };
    let ty: TypeHandle = ctx.intern(obj);
    proof {
        ir::lemma_handle_of(*ctx, ty);
    }
    ty
}

/// The type at `pos`, which is added to the context, and where it ends.
pub fn parse_type(ctx: &mut Context, foreign: &[ForeignType], t: &[char], pos: usize) -> (r: Result<
    (TypeHandle, usize),
    ParseErr,
>)
    requires
        old(ctx).wf(),
        pos <= t@.len(),
        all_foreign(*old(ctx), foreign@, t@.len()),
    ensures
        final(ctx).wf(),
        final(ctx).extends(*old(ctx)),
        match r {
            Ok((ty, end)) => type_at(foreign@, t@, pos as int) matches Ok((tree, stop)) && stop
                == end <= t@.len() && pos <= end && tree.held(*final(ctx)) && ty == tree.handle(
                *final(ctx),
            ),
            Err(error) => type_at(foreign@, t@, pos as int) == Err::<(TypeTree, int), ParseErr>(
                error,
            ),
        },
    decreases t@.len() - pos,
{
    let start: usize = tokens::skip_spaces(t, pos);
    let end: usize = match dense_text::find_type_name_end(t, start) {
        Some(end) => end,
        None => {
            return Err(ParseErr::Unexpected { at: start });
        },
    };
    let tensor: bool = tokens::spells(t, start, end, "tensor.ranked");
    if tensor || tokens::spells(t, start, end, "memref.ranked") {
        let (shape, inner) = match parse_shape(t, end) {
            Ok(parsed) => parsed,
            Err(error) => {
                return Err(error);
            },
        };
        let (element_type, close) = match parse_type(ctx, foreign, t, inner) {
            Ok(parsed) => parsed,
            Err(error) => {
                return Err(error);
            },
        };
        let stop: usize = match tokens::parse_spaced(t, close, ">") {
            Ok(stop) => stop,
            Err(error) => {
                return Err(error);
            },
        };
        let ghost between = *ctx;
        let ty: TypeHandle = if tensor {
            RankedTensorType::get(ctx, element_type, shape)
        } else {
            RankedMemrefType::get(ctx, element_type, shape)
        };
        proof {
            let element = type_at(foreign@, t@, inner as int)->Ok_0.0;
            lemma_tree_extends(element, *ctx, between);
            ir::lemma_handle_of(*ctx, ty);
        }
        return Ok((ty, stop));
    }
    let tensor: bool = tokens::spells(t, start, end, "tensor.unranked");
    if tensor || tokens::spells(t, start, end, "memref.unranked") {
        let inner: usize = match tokens::parse_spaced(t, end, "<") {
            Ok(inner) => inner,
            Err(error) => {
                return Err(error);
            },
        };
        let (element_type, close) = match parse_type(ctx, foreign, t, inner) {
            Ok(parsed) => parsed,
            Err(error) => {
                return Err(error);
            },
        };
        let stop: usize = match tokens::parse_spaced(t, close, ">") {
            Ok(stop) => stop,
            Err(error) => {
                return Err(error);
            },
        };
        let ghost between = *ctx;
        let ty: TypeHandle = if tensor {
            UnrankedTensorType::get(ctx, element_type)
        } else {
            ctx.intern(TypeObj::UnrankedMemref(UnrankedMemrefType { element_type }))
        };
        proof {
            let element = type_at(foreign@, t@, inner as int)->Ok_0.0;
            lemma_tree_extends(element, *ctx, between);
            ir::lemma_handle_of(*ctx, ty);
        }
        return Ok((ty, stop));
    }
    if tokens::spells(t, start, end, "index.index") {
        let ty: TypeHandle = ctx.intern(TypeObj::Index);
        proof {
            ir::lemma_handle_of(*ctx, ty);
        }
        return Ok((ty, tokens::skip_spaces(t, end)));
    }
    match dense_text::parse_element_type(t, pos) {
        Ok((element, stop)) => Ok((intern_element(ctx, element), stop)),
        Err(ParseErr::UnknownType { at }) => match find_foreign(foreign, pos) {
            Some(entry) => {
                proof {
                    search::lemma_first_where(foreign@.len(), begins_at(foreign@, pos as int));
                }
                Ok((entry.ty, entry.end))
            },
            None => Err(ParseErr::UnknownType { at }),
        },
        Err(error) => Err(error),
    }
}

} // verus!
