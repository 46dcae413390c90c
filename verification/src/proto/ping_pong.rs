//! Keepalive by PING frames.

use crate::buf;
use vstd::prelude::*;

verus! {

/// The PING that was sent and not answered yet.
#[derive(Clone, Copy, Debug)]
pub struct PingPong {
    awaiting: Option<[u8; 8]>,
}

impl View for PingPong {
    type V = Option<Seq<u8>>;

    closed spec fn view(&self) -> Option<Seq<u8>> {
        match self.awaiting {
            Some(d) => Some(d@),
            None => None,
        }
    }
}

impl PingPong {
    /// No keepalive: no PING is outstanding.
    pub fn disabled() -> (p: PingPong)
        ensures
            p@ is None,
    {
        PingPong { awaiting: None }
    }

    /// A PING with these bytes was sent.
    pub fn ping_sent(&mut self, opaque_data: [u8; 8])
        ensures
            final(self)@ == Some(opaque_data@),
    {
        self.awaiting = Some(opaque_data);
    }

    /// Whether a PING is outstanding.
    pub fn is_waiting(&self) -> (r: bool)
        ensures
            r == (self@ is Some),
    {
        self.awaiting.is_some()
    }

    /// The peer answered with these bytes. Only an answer to the outstanding PING
    /// counts.
    pub fn recv_pong(&mut self, opaque_data: &[u8; 8])
        ensures
            final(self)@ == if old(self)@ == Some(opaque_data@) {
                None
            } else {
                old(self)@
            },
    {
        if let Some(sent) = self.awaiting {
            if buf::same_bytes(sent.as_slice(), opaque_data.as_slice()) {
                self.awaiting = None;
            }
        }
    }
}

} // verus!
