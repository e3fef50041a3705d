//! The message-passing face of the arbiter.
//!
//! Callers never share state with the arbiter: they send it messages. A
//! [`Message`] names its response type; a [`Receive`] implementation is
//! the arbiter-side handler for one message type. The runtime that owns
//! the channels drains them and feeds each message to `handle`.

use vstd::prelude::*;

use crate::arbiter::{after_release, after_request, LockArbiter, LockRequest};

verus! {

/// A message to be sent to and handled by a manager task.
pub trait Message {
    /// The response type handling this message returns.
    type Response;
}

/// Implemented by a manager per message type it handles.
pub trait Receive<M: Message>: Sized {
    /// Whether the receiver is in a state fit to handle messages; handling
    /// keeps it so.
    spec fn ready(&self) -> bool;

    /// Handles one message.
    fn handle(&mut self, message: M) -> (response: M::Response)
        requires
            old(self).ready(),
        ensures
            final(self).ready(),
    ;
}

/// A released lock phoning home: the key it held is free again.
pub struct ReleaseNotice {
    /// The key the disposed lock represented.
    pub path: String,
}

impl Message for ReleaseNotice {
    type Response = ();
}

impl Message for LockRequest {
    type Response = ();
}

impl Receive<ReleaseNotice> for LockArbiter {
    open spec fn ready(&self) -> bool {
        self.wf()
    }

    fn handle(&mut self, message: ReleaseNotice)
        ensures
            final(self).key_view(message.path@) == after_release(
                old(self).key_view(message.path@),
            ),
            forall|k: Seq<char>|
                k != message.path@ ==> final(self).key_view(k) == old(self).key_view(k),
    {
        self.note_release(&message.path);
    }
}

impl Receive<LockRequest> for LockArbiter {
    open spec fn ready(&self) -> bool {
        self.wf()
    }

    fn handle(&mut self, message: LockRequest)
        ensures
            final(self).key_view(message.path@) == after_request(
                old(self).key_view(message.path@),
                message.ticket,
            ),
            forall|k: Seq<char>|
                k != message.path@ ==> final(self).key_view(k) == old(self).key_view(k),
    {
        self.enqueue_request(&message.path, message.ticket);
    }
}

} // verus!
