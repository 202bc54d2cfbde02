//! Tensor and memref dialects: shapes, slices, constants, verification and lowering.

pub mod bytes;
pub mod collections;
pub mod forward;
pub mod ir;
pub mod memref;
pub mod op_text;
pub mod outcomes;
pub mod plan;
pub mod product_laws;
pub mod row_major;
pub mod search;
pub mod semantics;
pub mod tensor;
pub mod text;
pub mod tokens;
