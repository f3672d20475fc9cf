//! The control channel: the single-producer/single-consumer message path
//! that carries parameter updates from the control side into the renderer.
//!
//! The control side enqueues at any rate; nothing blocks and nothing is
//! dropped. The renderer drains the whole queue before each block, so a
//! message sent mid-block becomes visible at the next drain. Send order is
//! kept; data, not code, crosses the boundary.
use crate::graph::NodeReference;
use crate::node::Value;
use vstd::prelude::*;

verus! {

/// One parameter change, addressed by node reference and slot.
pub struct ParameterMessage {
    pub target: NodeReference,
    pub slot: u32,
    pub value: Value,
}

/// The queue of not-yet-applied parameter messages, in send order.
pub struct ControlChannel {
    pub queue: Vec<ParameterMessage>,
}

impl ControlChannel {
    /// An empty channel.
    pub fn new() -> (c: ControlChannel)
        ensures
            c.queue@.len() == 0,
    {
        ControlChannel { queue: Vec::new() }
    }

    /// Enqueue one message behind all earlier ones. Nothing is dropped and
    /// send order is kept.
    pub fn send(&mut self, msg: ParameterMessage)
        requires
            old(self).queue@.len() < usize::MAX,
        ensures
            final(self).queue@ == old(self).queue@.push(msg),
    {
        self.queue.push(msg);
    }

    /// How many messages are waiting.
    pub fn pending(&self) -> (n: usize)
        ensures
            n == self.queue@.len(),
    {
        self.queue.len()
    }
}

} // verus!
