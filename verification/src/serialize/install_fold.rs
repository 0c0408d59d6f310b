//! Fold-installation message: ships a compiled measurement program to the
//! datapath.

use vstd::prelude::*;
use crate::lang::{Bin, instr_wire_ok};

verus! {

/// Wire tag 2. Body after the flow id: `num_instrs` and that many
/// fixed-width instructions.
#[derive(Debug)]
pub struct Msg {
    pub sid: u32,
    pub num_instrs: u32,
    pub instrs: Bin,
}

/// The declared count matches the instructions carried, every register in
/// them survives the wire encoding, and the framed length fits 16 bits.
pub open spec fn wf(m: Msg) -> bool {
    &&& m.num_instrs == m.instrs.0@.len()
    &&& 12 + 16 * m.instrs.0@.len() <= 65535
    &&& forall|i: int| 0 <= i < m.instrs.0@.len() ==> instr_wire_ok(#[trigger] m.instrs.0@[i])
}

} // verus!
