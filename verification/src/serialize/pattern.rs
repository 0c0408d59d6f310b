//! Pattern message: ships an ordered schedule of datapath actions.

use vstd::prelude::*;
use crate::pattern::Pattern;

verus! {

/// Wire tag 4. Body after the flow id: `num_events` and that many 5-byte
/// events, replayed by the datapath in this order.
#[derive(Debug)]
pub struct Msg {
    pub sid: u32,
    pub num_events: u32,
    pub pattern: Pattern,
}

/// The declared count matches the events carried and the framed length
/// fits the 16-bit header field.
pub open spec fn wf(m: Msg) -> bool {
    m.num_events == m.pattern@.len() && 12 + 5 * m.pattern@.len() <= 65535
}

} // verus!
