//! Listener fan-out.
//!
//! Consumers subscribe to an instance's updates through bounded channels.
//! On every update the registry tries a non-blocking send to each
//! connection: a consumer that fell behind is skipped, and one that has
//! gone away — its receiver dropped — is removed on the spot, taking the
//! last connection's place. Each connection carries a per-listener state
//! value for the caller (a state listener's snapshot size, for example).

use vstd::prelude::*;

verus! {

/// The channel endpoint that carries updates to one listener.
#[verifier::external_type_specification]
#[verifier::external_body]
#[verifier::reject_recursive_types(T)]
pub struct ExSender<T>(crossbeam_channel::Sender<T>);

/// The channel endpoint a listener consumes; dropping it disconnects the
/// sender.
#[verifier::external_type_specification]
#[verifier::external_body]
#[verifier::reject_recursive_types(T)]
pub struct ExReceiver<T>(crossbeam_channel::Receiver<T>);

/// How one non-blocking send ended.
#[derive(Debug, Clone, Copy, PartialEq, Eq, Structural)]
pub enum SendStatus {
    /// The value was delivered into the channel.
    Sent,
    /// The channel was full; the value was dropped.
    Full,
    /// Every receiver is gone; the value was dropped.
    Disconnected,
}

/// Relies on `crossbeam_channel::bounded`: a connected sender/receiver
/// pair whose channel holds at most `cap` messages. What later flows
/// through the channel depends on both ends, so nothing more is claimed.
#[verifier::external_body]
fn channel_bounded<T>(cap: usize) -> (r: (crossbeam_channel::Sender<T>, crossbeam_channel::Receiver<
    T,
>)) {
    crossbeam_channel::bounded(cap)
}

/// Relies on `crossbeam_channel::Sender::try_send`: it delivers without
/// blocking, or reports the channel full, or reports it disconnected once
/// every receiver has been dropped. Which of the three happens depends on
/// the consumer, so nothing is promised of the outcome.
#[verifier::external_body]
fn try_send_value<T>(sender: &crossbeam_channel::Sender<T>, value: T) -> (r: SendStatus) {
    match sender.try_send(value) {
        Ok(()) => SendStatus::Sent,
        Err(crossbeam_channel::TrySendError::Full(_)) => SendStatus::Full,
        Err(crossbeam_channel::TrySendError::Disconnected(_)) => SendStatus::Disconnected,
    }
}

/// Every connection of `cur` already stood in `orig`.
pub open spec fn drawn_from<T, P>(cur: Seq<ListenerTx<T, P>>, orig: Seq<ListenerTx<T, P>>) -> bool {
    forall|k: int| #![trigger cur[k]]
        0 <= k < cur.len() ==> contains_conn(orig, cur[k])
}

/// Whether some entry of `s` is the connection `c`.
pub open spec fn contains_conn<T, P>(s: Seq<ListenerTx<T, P>>, c: ListenerTx<T, P>) -> bool {
    exists|j: int| 0 <= j < s.len() && #[trigger] s[j] == c
}

/// A sequence is drawn from itself.
pub proof fn lemma_drawn_from_refl<T, P>(s: Seq<ListenerTx<T, P>>)
    ensures
        drawn_from(s, s),
{
    assert forall|k: int| #![trigger s[k]] 0 <= k < s.len() implies contains_conn(s, s[k]) by {
        let j0 = k;
        assert(0 <= j0 < s.len() && s[j0] == s[k]);
    };
}

/// Removing a connection by swapping the last one in keeps the rest
/// drawn from the original.
pub proof fn lemma_drawn_from_swap_remove<T, P>(
    cur: Seq<ListenerTx<T, P>>,
    orig: Seq<ListenerTx<T, P>>,
    i: int,
)
    requires
        drawn_from(cur, orig),
        0 <= i < cur.len(),
    ensures
        drawn_from(cur.update(i, cur.last()).drop_last(), orig),
{
    let new = cur.update(i, cur.last()).drop_last();
    assert forall|k: int| #![trigger new[k]] 0 <= k < new.len() implies contains_conn(orig, new[k]) by {
        if k == i {
            assert(new[k] == cur[cur.len() - 1]);
            assert(contains_conn(orig, cur[cur.len() - 1]));
        } else {
            assert(new[k] == cur[k]);
            assert(contains_conn(orig, cur[k]));
        }
    };
}

/// One listener connection: its channel and the caller's per-listener
/// state.
#[verifier::reject_recursive_types(P)]
pub struct ListenerTx<T, P> {
    pub sender: crossbeam_channel::Sender<P>,
    pub state: T,
}

/// How many updates a listener's channel absorbs before it counts as
/// behind.
pub const LISTENER_CHANNEL_CAPACITY: usize = 10;

/// The fan-out registry: every active listener connection of one
/// instance.
#[verifier::reject_recursive_types(P)]
pub struct UpdateListener<T, P> {
    pub connections: Vec<ListenerTx<T, P>>,
}

impl<T, P> UpdateListener<T, P> {
    /// A registry with no listeners.
    pub fn new() -> (l: UpdateListener<T, P>)
        ensures
            l.connections@.len() == 0,
    {
        UpdateListener { connections: Vec::new() }
    }

    /// How many listeners are connected.
    pub fn num_listeners(&self) -> (n: usize)
        ensures
            n == self.connections@.len(),
    {
        self.connections.len()
    }

    /// The per-listener state of connection `i`.
    pub fn state(&self, i: usize) -> (r: &T)
        requires
            i < self.connections@.len(),
        ensures
            *r == self.connections@[i as int].state,
    {
        &self.connections[i].state
    }

    /// Subscribe a listener: a fresh bounded channel is added to the
    /// registry, existing connections untouched, and the receiving end
    /// handed back. Dropping the receiver later disconnects the entry.
    pub fn add_listener(&mut self, state: T) -> (rx: crossbeam_channel::Receiver<P>)
        ensures
            final(self).connections@.len() == old(self).connections@.len() + 1,
            forall|j: int|
                0 <= j < old(self).connections@.len() ==> final(self).connections@[j] == old(
                    self,
                ).connections@[j],
            final(self).connections@.last().state == state,
    {
        let (sender, receiver) = channel_bounded(LISTENER_CHANNEL_CAPACITY);
        self.connections.push(ListenerTx { sender, state });
        receiver
    }

    /// Try to deliver `value` to connection `i`. A connection whose
    /// consumer is gone is removed, the last connection taking its index;
    /// a full or successful one stays.
    pub fn send_to(&mut self, i: usize, value: P) -> (st: SendStatus)
        requires
            i < old(self).connections@.len(),
        ensures
            (match st {
                SendStatus::Disconnected => final(self).connections@ == old(
                    self,
                ).connections@.update(i as int, old(self).connections@.last()).drop_last(),
                _ => final(self).connections@ == old(self).connections@,
            }),
    {
        let st = try_send_value(&self.connections[i].sender, value);
        if st == SendStatus::Disconnected {
            self.connections.swap_remove(i);
        }
        st
    }

    /// Deliver one update to every listener: each connection gets a try;
    /// dead ones are purged as they are found. Reports whether any
    /// listener was found disconnected. Every connection that remains was
    /// already subscribed before the call.
    pub fn sender(&mut self, value: &P) -> (any_disconnected: bool) where P: Clone
        ensures
            final(self).connections@.len() <= old(self).connections@.len(),
            any_disconnected == (final(self).connections@.len() < old(self).connections@.len()),
            drawn_from(final(self).connections@, old(self).connections@),
    {
        let ghost orig = self.connections@;
        let n0 = self.connections.len();
        let mut i: usize = 0;
        proof {
            lemma_drawn_from_refl(orig);
        }
        while i < self.connections.len()
            invariant
                i <= self.connections@.len(),
                self.connections@.len() <= orig.len(),
                n0 == orig.len(),
                drawn_from(self.connections@, orig),
            decreases self.connections@.len() - i,
        {
            let ghost before_step = self.connections@;
            let st = self.send_to(i, value.clone());
            if st == SendStatus::Disconnected {
                proof {
                    lemma_drawn_from_swap_remove(before_step, orig, i as int);
                }
            } else {
                i += 1;
            }
        }
        self.connections.len() < n0
    }
}

} // verus!
