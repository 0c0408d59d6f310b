//! Flow-creation message: immutable per-flow metadata set by the datapath.

use vstd::prelude::*;

verus! {

/// Wire tag 0. Body after the flow id: six packed `u32` fields.
#[derive(Debug, Clone, Copy, PartialEq, Eq, Structural)]
pub struct Msg {
    pub sid: u32,
    pub init_cwnd: u32,
    pub mss: u32,
    pub src_ip: u32,
    pub src_port: u32,
    pub dst_ip: u32,
    pub dst_port: u32,
}

} // verus!
