//! Attributes of the tensor dialect.

pub use crate::memref::attributes::{
    DenseElementsAttr, DenseElementsErr, SliceParamAttr, SliceParamsAttr,
};
use vstd::prelude::*;

verus! {

/// Whether the integers of an element-wise cast are signed. Integer types do not say, and the
/// operation on elements depends on it.
#[derive(Clone, Copy, Debug, PartialEq, Eq, Hash, Structural)]
pub struct CastSignednessAttr {
    pub input_is_signed: bool,
    pub result_is_signed: bool,
}

impl Default for CastSignednessAttr {
    fn default() -> (r: Self)
        ensures
            !r.input_is_signed,
            !r.result_is_signed,
    {
        CastSignednessAttr { input_is_signed: false, result_is_signed: false }
    }
}

} // verus!
