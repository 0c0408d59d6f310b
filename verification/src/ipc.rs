//! Transport capability: the control plane consumes any channel that can
//! send one framed message and receive one framed message. Concrete
//! transports (datagram sockets, character devices) live outside the
//! library and implement [`Ipc`].

use vstd::prelude::*;
use crate::Error;

verus! {

/// Blocking or non-blocking receive.
#[derive(Debug, Clone, Copy, PartialEq, Eq, Structural)]
pub enum ListenMode {
    Blocking,
    Nonblocking,
}

/// One bidirectional IPC channel to the datapath. Framing is the
/// transport's responsibility: one call moves exactly one frame.
pub trait Ipc {
    /// Hand one framed message to the datapath; best-effort, no
    /// acknowledgement.
    fn send(&self, msg: &[u8]) -> Result<(), Error>;

    /// Receive one framed message; an error is terminal (the receive side
    /// closed).
    fn recv(&self, mode: ListenMode) -> Result<Vec<u8>, Error>;
}

/// Transport adapter shared by the dispatch loop and every live algorithm
/// instance.
pub struct Backend<I: Ipc> {
    sock: I,
}

impl<I: Ipc> Backend<I> {
    /// Wrap a transport.
    pub fn new(sock: I) -> Backend<I> {
        Backend { sock }
    }

    /// Send one framed message.
    pub fn send_msg(&self, msg: &[u8]) -> Result<(), Error> {
        self.sock.send(msg)
    }

    /// Receive the next frame; an error is terminal.
    pub fn next_frame(&self, mode: ListenMode) -> Result<Vec<u8>, Error> {
        self.sock.recv(mode)
    }
}

} // verus!
