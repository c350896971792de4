//! Raw Ethernet frame I/O abstraction and an in-memory transport.
use std::collections::VecDeque;
use std::time::Duration;
use vstd::prelude::*;
use vstd::slice::slice_to_vec;

use crate::eth::header::ETHERTYPE_PROFINET;
use crate::wire::{be16_at, read_be16};

verus! {

/// Transport failures.
#[derive(Debug, Clone, PartialEq, Eq)]
pub enum TransportError {
    Io(String),
}

/// Raw Ethernet frame I/O abstraction (L2 header included).
///
/// `recv` returns `Ok(None)` when no frame is available before `timeout`.
pub trait EthTransport: Send + Sync {
    fn send(&mut self, frame: &[u8]) -> Result<(), TransportError>;

    fn recv(&mut self, timeout: Option<Duration>) -> Result<Option<Vec<u8>>, TransportError>;
}

/// Whether a received frame is passed on by a raw-socket transport: it holds an
/// Ethernet header whose EtherType field (at offset 12, untagged) is PROFINET.
pub fn is_profinet_frame(frame: &[u8]) -> (r: bool)
    ensures
        r == (frame@.len() >= 14 && be16_at(frame@, 12) == ETHERTYPE_PROFINET),
{
    frame.len() >= 14 && read_be16(frame, 12) == ETHERTYPE_PROFINET
}

/// In-memory transport for testing: frames sent are recorded, frames pushed are
/// received in FIFO order.
pub struct MockTransport {
    tx: Vec<Vec<u8>>,
    rx: VecDeque<Vec<u8>>,
}

/// Mathematical model of a [`MockTransport`]: the frames sent so far, in order,
/// and the frames still to be received, in order.
pub struct MockTransportView {
    pub sent: Seq<Seq<u8>>,
    pub pending: Seq<Seq<u8>>,
}

/// The byte contents of a sequence of frames.
pub open spec fn frames_view(fs: Seq<Vec<u8>>) -> Seq<Seq<u8>> {
    fs.map_values(|f: Vec<u8>| f@)
}

impl View for MockTransport {
    type V = MockTransportView;

    closed spec fn view(&self) -> MockTransportView {
        MockTransportView { sent: frames_view(self.tx@), pending: frames_view(self.rx@) }
    }
}

impl Default for MockTransport {
    fn default() -> (t: Self)
        ensures
            t@.sent == Seq::<Seq<u8>>::empty(),
            t@.pending == Seq::<Seq<u8>>::empty(),
    {
        let t = MockTransport { tx: Vec::new(), rx: VecDeque::new() };
        assert(t@.sent =~= Seq::<Seq<u8>>::empty());
        assert(t@.pending =~= Seq::<Seq<u8>>::empty());
        t
    }
}

impl MockTransport {
    pub fn new() -> (t: Self)
        ensures
            t@.sent == Seq::<Seq<u8>>::empty(),
            t@.pending == Seq::<Seq<u8>>::empty(),
    {
        let t = MockTransport { tx: Vec::new(), rx: VecDeque::new() };
        assert(t@.sent =~= Seq::<Seq<u8>>::empty());
        assert(t@.pending =~= Seq::<Seq<u8>>::empty());
        t
    }

    /// Enqueues a frame to be returned by `recv` (FIFO).
    pub fn push_rx(&mut self, frame: Vec<u8>)
        ensures
            final(self)@.pending == old(self)@.pending.push(frame@),
            final(self)@.sent == old(self)@.sent,
    {
        self.rx.push_back(frame);
        assert(frames_view(self.rx@) =~= frames_view(old(self).rx@).push(frame@));
    }

    /// All frames sent via `send`, in order.
    pub fn sent(&self) -> (r: Vec<Vec<u8>>)
        ensures
            frames_view(r@) == self@.sent,
    {
        let mut r: Vec<Vec<u8>> = Vec::new();
        let mut i: usize = 0;
        while i < self.tx.len()
            invariant
                i <= self.tx@.len(),
                frames_view(r@) == frames_view(self.tx@).take(i as int),
            decreases self.tx@.len() - i,
        {
            let f = slice_to_vec(self.tx[i].as_slice());
            assert(f@ == self.tx@[i as int]@);
            let ghost prev = r@;
            r.push(f);
            assert(r@ == prev.push(f));
            assert(frames_view(r@) =~= frames_view(prev).push(f@));
            i = i + 1;
            assert(frames_view(r@) =~= frames_view(self.tx@).take(i as int));
        }
        assert(frames_view(self.tx@).take(i as int) =~= frames_view(self.tx@));
        r
    }
}

impl EthTransport for MockTransport {
    /// Records the frame; never fails.
    fn send(&mut self, frame: &[u8]) -> (r: Result<(), TransportError>)
        ensures
            r is Ok,
            final(self)@.sent == old(self)@.sent.push(frame@),
            final(self)@.pending == old(self)@.pending,
    {
        self.tx.push(slice_to_vec(frame));
        assert(frames_view(self.tx@) =~= frames_view(old(self).tx@).push(frame@));
        Ok(())
    }

    /// Takes the oldest pushed frame, or `None` when none is left; never fails and
    /// never waits.
    fn recv(&mut self, timeout: Option<Duration>) -> (r: Result<Option<Vec<u8>>, TransportError>)
        ensures
            final(self)@.sent == old(self)@.sent,
            old(self)@.pending.len() == 0 ==> r == Ok::<Option<Vec<u8>>, TransportError>(None)
                && final(self)@.pending == old(self)@.pending,
            old(self)@.pending.len() > 0 ==> (r matches Ok(Some(f)) && f@ == old(self)@.pending[0]
                && final(self)@.pending == old(self)@.pending.drop_first()),
    {
        let r = self.rx.pop_front();
        assert(frames_view(self.rx@) =~= if old(self).rx@.len() > 0 {
            frames_view(old(self).rx@).drop_first()
        } else {
            frames_view(old(self).rx@)
        });
        Ok(r)
    }
}

} // verus!
