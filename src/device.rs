use vstd::prelude::*;

use std::collections::VecDeque;

verus! {

/// The outbound queue is full; try again on a later poll.
#[derive(Clone, Copy, Debug, PartialEq, Eq, Structural)]
pub enum DeviceError {
    Busy,
}

/// A software network device: frames from the overlay wait in a receive queue, and frames
/// handed to `transmit` wait in a bounded transmit queue until the overlay takes them. No
/// call blocks.
pub struct CaptureDevice {
    pub rx: VecDeque<Vec<u8>>,
    pub tx: VecDeque<Vec<u8>>,
    pub tx_capacity: usize,
}

/// A copy of `frame`.
pub fn copy_frame(frame: &Vec<u8>) -> (r: Vec<u8>)
    ensures
        r@ == frame@,
{
    let mut out: Vec<u8> = Vec::new();
    let mut i: usize = 0;
    while i < frame.len()
        invariant
            i <= frame@.len(),
            out@ == frame@.subrange(0, i as int),
        decreases frame@.len() - i,
    {
        out.push(frame[i]);
        i = i + 1;
        proof {
            assert(out@ =~= frame@.subrange(0, i as int));
        }
    }
    proof {
        assert(out@ =~= frame@);
    }
    out
}

impl CaptureDevice {
    pub open spec fn wf(&self) -> bool {
        self.tx@.len() <= self.tx_capacity
    }

    pub fn new(tx_capacity: usize) -> (r: CaptureDevice)
        ensures
            r.wf(),
            r.rx@.len() == 0,
            r.tx@.len() == 0,
            r.tx_capacity == tx_capacity,
    {
        CaptureDevice { rx: VecDeque::new(), tx: VecDeque::new(), tx_capacity }
    }

    /// Queues a frame that arrived from the overlay.
    pub fn inject(&mut self, frame: Vec<u8>)
        ensures
            final(self).rx@ == old(self).rx@.push(frame),
            final(self).tx == old(self).tx,
            final(self).tx_capacity == old(self).tx_capacity,
    {
        self.rx.push_back(frame);
    }

    /// The oldest pending inbound frame, if any.
    pub fn receive(&mut self) -> (r: Option<Vec<u8>>)
        ensures
            old(self).rx@.len() == 0 ==> r is None && final(self).rx@ == old(self).rx@,
            old(self).rx@.len() > 0 ==> r == Some(old(self).rx@[0]) && final(self).rx@
                == old(self).rx@.drop_first(),
            final(self).tx == old(self).tx,
            final(self).tx_capacity == old(self).tx_capacity,
    {
        self.rx.pop_front()
    }

    /// Queues `frame` for the overlay, or refuses it when the transmit queue is full.
    pub fn transmit(&mut self, frame: Vec<u8>) -> (r: Result<(), DeviceError>)
        requires
            old(self).wf(),
        ensures
            final(self).wf(),
            r is Ok <==> old(self).tx@.len() < old(self).tx_capacity,
            r is Ok ==> final(self).tx@ == old(self).tx@.push(frame),
            r is Err ==> final(self).tx@ == old(self).tx@,
            final(self).rx == old(self).rx,
            final(self).tx_capacity == old(self).tx_capacity,
    {
        if self.tx.len() < self.tx_capacity {
            self.tx.push_back(frame);
            Ok(())
        } else {
            Err(DeviceError::Busy)
        }
    }

    /// The oldest frame waiting for the overlay, if any.
    pub fn take_transmitted(&mut self) -> (r: Option<Vec<u8>>)
        requires
            old(self).wf(),
        ensures
            final(self).wf(),
            old(self).tx@.len() == 0 ==> r is None && final(self).tx@ == old(self).tx@,
            old(self).tx@.len() > 0 ==> r == Some(old(self).tx@[0]) && final(self).tx@
                == old(self).tx@.drop_first(),
            final(self).rx == old(self).rx,
            final(self).tx_capacity == old(self).tx_capacity,
    {
        self.tx.pop_front()
    }
}

} // verus!
