//! The connection registry: every live connection and the send half of its
//! outbound channel, independent of room membership.
//!
//! The registry's ghost image is the sequence of registered connection ids,
//! in registration order; the channels themselves are opaque. Sends to an
//! absent id are silently dropped, because disconnect races are expected
//! rather than exceptional. No broadcast primitive lives here: broadcasting
//! is a room-store operation scoped to membership.

use vstd::prelude::*;

use crate::messages::Outbound;

verus! {

/// Declares tokio's unbounded mpsc sender so that it can stand in fields
/// and signatures; its values are opaque to verification.
#[verifier::external_type_specification]
#[verifier::external_body]
#[verifier::reject_recursive_types(T)]
pub struct ExUnboundedSender<T>(tokio::sync::mpsc::UnboundedSender<T>);

/// Relies on tokio's `UnboundedSender::send`: enqueues the message onto the
/// channel's queue without blocking, and fails only when the receiving half
/// has been dropped. Nothing is promised of the result: the receiver may
/// vanish at any moment.
#[verifier::external_body]
pub(crate) fn channel_send(
    tx: &tokio::sync::mpsc::UnboundedSender<Outbound>,
    m: Outbound,
) -> (delivered: bool) {
    tx.send(m).is_ok()
}

/// Relies on tokio's `Clone` impl for `UnboundedSender`: the clone is
/// another handle to the same queue.
#[verifier::external_body]
pub(crate) fn channel_clone(
    tx: &tokio::sync::mpsc::UnboundedSender<Outbound>,
) -> (c: tokio::sync::mpsc::UnboundedSender<Outbound>) {
    tx.clone()
}

/// One registered connection: its id and its outbound channel.
pub struct RegEntry {
    pub id: u64,
    pub tx: tokio::sync::mpsc::UnboundedSender<Outbound>,
}

/// Tracks every live connection and its outbound message channel.
pub struct ConnectionRegistry {
    entries: Vec<RegEntry>,
}

impl View for ConnectionRegistry {
    type V = Seq<u64>;

    closed spec fn view(&self) -> Seq<u64> {
        self.entries@.map_values(|e: RegEntry| e.id)
    }
}

impl ConnectionRegistry {
    /// Registered connection ids are pairwise distinct.
    pub open spec fn wf(&self) -> bool {
        forall|i: int, j: int| 0 <= i < j < self@.len() ==> self@[i] != self@[j]
    }

    /// An empty registry.
    pub fn new() -> (r: Self)
        ensures
            r@ =~= Seq::<u64>::empty(),
            r.wf(),
    {
        ConnectionRegistry { entries: Vec::new() }
    }

    /// Stores the mapping from a fresh connection id to its channel.
    /// Registering an id that is already present would be a programming
    /// invariant violation, so it is ruled out by precondition rather than
    /// handled at run time.
    pub fn register(&mut self, id: u64, tx: tokio::sync::mpsc::UnboundedSender<Outbound>)
        requires
            old(self).wf(),
            !old(self)@.contains(id),
        ensures
            final(self).wf(),
            final(self)@ =~= old(self)@.push(id),
    {
        self.entries.push(RegEntry { id, tx });
        proof {
            assert(self@ =~= old(self)@.push(id));
        }
    }

    /// Removes the mapping for `id`. Idempotent: unregistering an absent id
    /// is a no-op, not an error, because disconnect races are expected.
    #[verifier::loop_isolation(false)]
    pub fn unregister(&mut self, id: u64)
        requires
            old(self).wf(),
        ensures
            final(self).wf(),
            !old(self)@.contains(id) ==> final(self)@ == old(self)@,
            old(self)@.contains(id) ==> final(self)@.len() == old(self)@.len() - 1,
            forall|x: u64| final(self)@.contains(x) <==> (old(self)@.contains(x) && x != id),
    {
        let n = self.entries.len();
        let mut j: usize = 0;
        while j < n
            invariant
                n == self.entries.len(),
                j <= n,
                *self == *old(self),
                forall|k: int| 0 <= k < j ==> self@[k] != id,
            decreases n - j,
        {
            if self.entries[j].id == id {
                self.entries.remove(j);
                proof {
                    let pre = old(self)@;
                    assert(self@ =~= pre.subrange(0, j as int) + pre.subrange(
                        j + 1,
                        pre.len() as int,
                    ));
                    assert(pre[j as int] == id);
                    assert(pre.contains(id));
                    assert forall|a: int, b: int|
                        0 <= a < b < self@.len() implies self@[a] != self@[b] by {
                        let a0: int = if a < j { a } else { a + 1 };
                        let b0: int = if b < j { b } else { b + 1 };
                        assert(self@[a] == pre[a0]);
                        assert(self@[b] == pre[b0]);
                        assert(pre[a0] != pre[b0]);
                    }
                    assert forall|x: u64| self@.contains(x) implies (pre.contains(x) && x
                        != id) by {
                        let k = choose|k: int| 0 <= k < self@.len() && self@[k] == x;
                        if k < j {
                            assert(pre[k] == x);
                        } else {
                            assert(pre[k + 1] == x);
                        }
                    }
                    assert forall|x: u64| pre.contains(x) && x != id implies self@.contains(
                        x,
                    ) by {
                        let k = choose|k: int| 0 <= k < pre.len() && pre[k] == x;
                        if k < j {
                            assert(self@[k] == x);
                        } else {
                            assert(k != j);
                            assert(self@[k - 1] == x);
                        }
                    }
                }
                return ;
            }
            j = j + 1;
        }
        proof {
            assert forall|x: u64| old(self)@.contains(x) implies x != id by {}
            assert(!old(self)@.contains(id));
        }
    }

    /// Whether `id` is registered.
    pub fn is_registered(&self, id: u64) -> (r: bool)
        ensures
            r == self@.contains(id),
    {
        let n = self.entries.len();
        let mut j: usize = 0;
        while j < n
            invariant
                n == self.entries.len(),
                j <= n,
                forall|k: int| 0 <= k < j ==> self@[k] != id,
            decreases n - j,
        {
            if self.entries[j].id == id {
                assert(self@[j as int] == id);
                return true;
            }
            j = j + 1;
        }
        false
    }

    /// Looks up the channel for `id` and enqueues the message. A send to an
    /// absent id is silently dropped: the connection already disconnected
    /// concurrently, which is not the caller's error.
    pub fn send(&self, id: u64, m: Outbound) -> (delivered: bool)
        ensures
            delivered ==> self@.contains(id),
    {
        let n = self.entries.len();
        let mut j: usize = 0;
        while j < n
            invariant
                n == self.entries.len(),
                j <= n,
            decreases n - j,
        {
            if self.entries[j].id == id {
                assert(self@[j as int] == id);
                return channel_send(&self.entries[j].tx, m);
            }
            j = j + 1;
        }
        false
    }

    /// Hands out another handle to the channel registered for `id`, so that
    /// a room member can share the connection's outbound channel.
    pub fn sender_for(&self, id: u64) -> (r: Option<
        tokio::sync::mpsc::UnboundedSender<Outbound>,
    >)
        ensures
            r is Some <==> self@.contains(id),
    {
        let n = self.entries.len();
        let mut j: usize = 0;
        while j < n
            invariant
                n == self.entries.len(),
                j <= n,
                forall|k: int| 0 <= k < j ==> self@[k] != id,
            decreases n - j,
        {
            if self.entries[j].id == id {
                assert(self@[j as int] == id);
                return Some(channel_clone(&self.entries[j].tx));
            }
            j = j + 1;
        }
        None
    }
}

} // verus!
