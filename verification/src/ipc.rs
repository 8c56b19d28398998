//! Point-to-point inter-module messages and the bounded FIFO mailbox each
//! module owns. A mailbox never silently drops or overwrites a message:
//! enqueueing onto a full mailbox is refused and reported to the caller.

use vstd::prelude::*;

verus! {

/// A message routed between two modules. Immutable once constructed.
pub struct IpcMessage {
    pub from: String,
    pub to: String,
    pub payload: String,
    pub timestamp: u64,
}

/// The mathematical content of a message.
pub ghost struct IpcMessageView {
    pub from: Seq<char>,
    pub to: Seq<char>,
    pub payload: Seq<char>,
    pub timestamp: u64,
}

impl View for IpcMessage {
    type V = IpcMessageView;

    open spec fn view(&self) -> IpcMessageView {
        IpcMessageView {
            from: self.from@,
            to: self.to@,
            payload: self.payload@,
            timestamp: self.timestamp,
        }
    }
}

/// Relies on chrono::Utc::now and DateTime::timestamp_millis: milliseconds
/// since the epoch. Nothing is promised of the value, which depends on the
/// time of the call.
#[verifier::external_body]
fn epoch_millis() -> (r: u64)
{
    chrono::Utc::now().timestamp_millis() as u64
}

impl IpcMessage {
    /// A message from `from` to `to`, stamped with the current time.
    pub fn new(from: String, to: String, payload: String) -> (r: IpcMessage)
        ensures
            r@.from == from@,
            r@.to == to@,
            r@.payload == payload@,
    {
        let stamp = epoch_millis();
        IpcMessage { from, to, payload, timestamp: stamp }
    }
}

/// The bounded inbound queue of one module: a FIFO whose capacity is fixed
/// at creation.
pub struct Mailbox {
    owner: String,
    queue: Vec<IpcMessage>,
    capacity: usize,
}

/// The mathematical content of a mailbox.
pub ghost struct MailboxView {
    pub owner: Seq<char>,
    pub queue: Seq<IpcMessageView>,
    pub capacity: nat,
}

impl View for Mailbox {
    type V = MailboxView;

    closed spec fn view(&self) -> MailboxView {
        MailboxView {
            owner: self.owner@,
            queue: self.queue@.map_values(|m: IpcMessage| m@),
            capacity: self.capacity as nat,
        }
    }
}

impl Mailbox {
    /// A mailbox never holds more messages than its capacity.
    pub open spec fn wf(&self) -> bool {
        self@.queue.len() <= self@.capacity
    }

    /// An empty mailbox for `owner` with the given fixed capacity.
    pub fn new(owner: String, capacity: usize) -> (r: Mailbox)
        ensures
            r.wf(),
            r@.owner == owner@,
            r@.queue == Seq::<IpcMessageView>::empty(),
            r@.capacity == capacity as nat,
    {
        let r = Mailbox { owner, queue: Vec::new(), capacity };
        proof {
            assert(r@.queue =~= Seq::<IpcMessageView>::empty());
        }
        r
    }

    /// The id of the module that owns the receiving end.
    pub fn owner_id(&self) -> (r: &String)
        ensures
            r@ == self@.owner,
    {
        &self.owner
    }

    /// The number of queued messages.
    pub fn len(&self) -> (r: usize)
        ensures
            r == self@.queue.len(),
    {
        self.queue.len()
    }

    /// Appends `msg` at the back when space is available, and otherwise
    /// refuses and leaves the mailbox unchanged: true exactly when the
    /// message was queued. A refusal is the backpressure signal; no message
    /// is ever dropped or overwritten.
    pub fn enqueue(&mut self, msg: IpcMessage) -> (r: bool)
        requires
            old(self).wf(),
        ensures
            final(self).wf(),
            final(self)@.owner == old(self)@.owner,
            final(self)@.capacity == old(self)@.capacity,
            r == (old(self)@.queue.len() < old(self)@.capacity),
            r ==> final(self)@.queue == old(self)@.queue.push(msg@),
            !r ==> final(self)@.queue == old(self)@.queue,
    {
        if self.queue.len() < self.capacity {
            let ghost before = self.queue@;
            let ghost mv = msg@;
            self.queue.push(msg);
            proof {
                assert(final(self)@.queue =~= before.map_values(|m: IpcMessage| m@).push(mv));
            }
            true
        } else {
            false
        }
    }

    /// Removes and returns the oldest queued message, or returns nothing
    /// when the mailbox is empty: delivery is first-in, first-out.
    pub fn dequeue(&mut self) -> (r: Option<IpcMessage>)
        requires
            old(self).wf(),
        ensures
            final(self).wf(),
            final(self)@.owner == old(self)@.owner,
            final(self)@.capacity == old(self)@.capacity,
            match r {
                Some(m) => old(self)@.queue.len() > 0 && m@ == old(self)@.queue[0]
                    && final(self)@.queue == old(self)@.queue.drop_first(),
                None => old(self)@.queue.len() == 0 && final(self)@.queue == old(self)@.queue,
            },
    {
        if self.queue.len() == 0 {
            None
        } else {
            let ghost before = self.queue@;
            let m = self.queue.remove(0);
            proof {
                assert(final(self)@.queue =~= before.map_values(|x: IpcMessage| x@).drop_first());
            }
            Some(m)
        }
    }
}

} // verus!
