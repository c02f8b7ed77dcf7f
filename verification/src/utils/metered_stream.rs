//! Traffic counting on a stream.
use vstd::prelude::*;

verus! {

/// Whether the stream faces a client or a server.
#[derive(Debug, Clone, Copy, PartialEq, Eq, Structural)]
pub enum Direction {
    Inbound,
    Outbound,
}

/// The counters of one stream: bytes received and sent, each wrapping at
/// 2^64 as the shared counters do.
#[derive(Debug, Clone)]
pub struct MeteredStream {
    pub direction: Direction,
    pub tag: String,
    pub rx: u64,
    pub tx: u64,
}

impl MeteredStream {
    /// The counters of a stream accepted by the inbound `tag`.
    pub fn new_inbound(tag: &str) -> (r: Self)
        ensures
            r.direction == Direction::Inbound,
            r.tag@ == tag@,
            r.rx == 0 && r.tx == 0,
    {
        MeteredStream { direction: Direction::Inbound, tag: tag.to_owned(), rx: 0, tx: 0 }
    }

    /// The counters of a stream opened by the outbound `tag`.
    pub fn new_outbound(tag: &str) -> (r: Self)
        ensures
            r.direction == Direction::Outbound,
            r.tag@ == tag@,
            r.rx == 0 && r.tx == 0,
    {
        MeteredStream { direction: Direction::Outbound, tag: tag.to_owned(), rx: 0, tx: 0 }
    }

    /// A read filled the buffer from `before` to `after` bytes.
    pub fn on_read(&mut self, before: usize, after: usize)
        requires
            before <= after,
        ensures
            final(self).rx == (old(self).rx + (after - before)) % 0x1_0000_0000_0000_0000,
            final(self).tx == old(self).tx,
            final(self).direction == old(self).direction,
            final(self).tag == old(self).tag,
    {
        self.rx = self.rx.wrapping_add((after - before) as u64);
    }

    /// A write took `n` bytes.
    pub fn on_write(&mut self, n: usize)
        ensures
            final(self).tx == (old(self).tx + n) % 0x1_0000_0000_0000_0000,
            final(self).rx == old(self).rx,
            final(self).direction == old(self).direction,
            final(self).tag == old(self).tag,
    {
        self.tx = self.tx.wrapping_add(n as u64);
    }
}

} // verus!
