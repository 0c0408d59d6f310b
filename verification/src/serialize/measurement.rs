//! Measurement report message: an ordered sequence of 64-bit fields.

use vstd::prelude::*;

verus! {

/// Wire tag 1. Body after the flow id: `num_fields` and that many packed
/// `u64` values; field `i` holds the permanent register with index `i`.
#[derive(Debug, Clone, PartialEq)]
pub struct Msg {
    pub sid: u32,
    pub num_fields: u32,
    pub fields: Vec<u64>,
}

/// The declared count matches the fields carried, and the framed message
/// length fits the 16-bit header field.
pub open spec fn wf(m: Msg) -> bool {
    m.num_fields == m.fields@.len() && 12 + 8 * m.fields@.len() <= 65535
}

} // verus!
