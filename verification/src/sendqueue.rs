//! The asynchronous send queue in front of a service's receive gate,
//! and the cooperative thread manager that suspends a kernel thread
//! until a reply arrives.
//!
//! The queue admits a message immediately when it is idle; otherwise it
//! defers the message and hands back an event token that is signalled
//! once the DTU acknowledges the send.  The thread manager keeps a
//! thread-local inbox holding the reply a resumed thread fetches.

use vstd::prelude::*;

use crate::{EpId, Event, ObjId};

verus! {

/// A message delivered to a kernel thread's inbox.
#[derive(Clone, PartialEq, Eq, Debug)]
pub struct Message {
    pub data: Vec<u8>,
}

/// One entry of a send queue: the endpoint it is addressed to and the
/// payload.
#[derive(Clone, PartialEq, Eq, Debug)]
pub struct QueuedMsg {
    pub ep: EpId,
    pub data: Vec<u8>,
}

/// FIFO of messages bound for one service's receive gate.
pub struct SendQueue {
    pub vpe: ObjId,
    pub msgs: Vec<QueuedMsg>,
}

impl SendQueue {
    /// Relation between a queue before and after one `send`: one message
    /// with the given endpoint and payload was appended and nothing else
    /// changed.
    pub open spec fn sent_after(pre: SendQueue, post: SendQueue, ep: EpId, data: Seq<u8>) -> bool {
        &&& post.vpe == pre.vpe
        &&& post.msgs@.len() == pre.msgs@.len() + 1
        &&& forall|i: int| 0 <= i < pre.msgs@.len() ==> post.msgs@[i] == pre.msgs@[i]
        &&& post.msgs@.last().ep == ep
        &&& post.msgs@.last().data@ == data
    }

    /// Creates the empty queue of the service owned by the given VPE.
    pub fn new(vpe: ObjId) -> (r: SendQueue)
        ensures
            r.vpe == vpe,
            r.msgs@.len() == 0,
    {
        SendQueue { vpe, msgs: Vec::new() }
    }

    /// The VPE that provides the service this queue belongs to.
    pub fn vpe(&self) -> (r: ObjId)
        ensures
            r == self.vpe,
    {
        self.vpe
    }

    /// Enqueues `len` bytes of `msg` for endpoint `ep`.  Returns `None`
    /// when the queue was idle and admitted the message immediately, and
    /// `Some(event)` when the message was deferred behind others; the
    /// event is signalled when the send completes.
    pub fn send(&mut self, ep: EpId, msg: &[u8], len: usize) -> (r: Option<Event>)
        requires
            len == msg@.len(),
        ensures
            Self::sent_after(*old(self), *final(self), ep, msg@),
            r is None <==> old(self).msgs@.len() == 0,
    {
        let deferred = self.msgs.len() > 0;
        let token: Event = self.msgs.len() as Event;
        let mut data: Vec<u8> = Vec::new();
        let mut i: usize = 0;
        while i < len
            invariant
                len == msg@.len(),
                i <= len,
                data@ == msg@.take(i as int),
            decreases len - i,
        {
            data.push(msg[i]);
            proof {
                assert(data@ =~= msg@.take(i as int + 1));
            }
            i = i + 1;
        }
        proof {
            assert(data@ =~= msg@);
        }
        self.msgs.push(QueuedMsg { ep, data });
        if deferred {
            Some(token)
        } else {
            None
        }
    }
}

/// The cooperative thread manager, as far as this core uses it: a
/// kernel thread can block on an event token and, once resumed, fetch
/// the reply that was placed in its thread-local inbox.
pub struct ThreadManager {
    pub inbox: Option<Message>,
    pub waited: Vec<Event>,
}

impl ThreadManager {
    pub fn new() -> (r: ThreadManager)
        ensures
            r.inbox is None,
            r.waited@.len() == 0,
    {
        ThreadManager { inbox: None, waited: Vec::new() }
    }

    /// Suspends the running kernel thread until `event` is signalled.
    pub fn wait_for(&mut self, event: Event)
        ensures
            final(self).waited@ == old(self).waited@.push(event),
            final(self).inbox == old(self).inbox,
    {
        self.waited.push(event);
    }

    /// Takes the reply, if any, out of the thread-local inbox.
    pub fn fetch_msg(&mut self) -> (r: Option<Message>)
        ensures
            r == old(self).inbox,
            final(self).inbox is None,
            final(self).waited == old(self).waited,
    {
        self.inbox.take()
    }
}

} // verus!
