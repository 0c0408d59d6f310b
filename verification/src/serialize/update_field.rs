//! Field-update message: assigns new values to datapath registers.

use vstd::prelude::*;
use crate::lang::{Reg, reg_wire_ok};

verus! {

/// Wire tag 3. Body after the flow id: `num_fields` (packed as a `u32`)
/// and that many entries of a 5-byte register followed by a `u64` value.
#[derive(Debug, Clone, PartialEq)]
pub struct Msg {
    pub sid: u32,
    pub num_fields: u8,
    pub fields: Vec<(Reg, u64)>,
}

/// The declared count matches the entries carried and every register
/// survives the wire encoding; the framed length always fits 16 bits since
/// the count is an 8-bit quantity.
pub open spec fn wf(m: Msg) -> bool {
    &&& m.num_fields == m.fields@.len()
    &&& forall|i: int| 0 <= i < m.fields@.len() ==> reg_wire_ok(#[trigger] m.fields@[i].0)
}

} // verus!
