//! The tensor dialect.

pub mod attributes;
pub mod bufferize;
pub mod bufferize_laws;
pub mod constants;
pub mod conversions;
pub mod effects;
pub mod memory_management;
pub mod op_forms;
pub mod op_interfaces;
pub mod ops;
pub mod outcome_laws;
pub mod reads;
pub mod runtime_utils;
pub mod sharing_laws;
pub mod tracked_tmm;
pub mod types;
pub mod verify_laws;
