//! The outbound queue of one peer: bounded, first in first out, shared by
//! all connections to that peer.

use vstd::prelude::*;
use std::collections::VecDeque;
use crate::types::{RawTransaction, RpcOut, RpcOutView};

verus! {

/// The views of a run of queue entries.
pub open spec fn rpc_outs_view(entries: Seq<RpcOut>) -> Seq<RpcOutView> {
    Seq::new(entries.len(), |i: int| entries[i]@)
}

/// The outbound queue of one peer.
#[derive(Debug)]
pub struct Sender {
    queue: VecDeque<RpcOut>,
    capacity: usize,
}

impl View for Sender {
    type V = Seq<RpcOutView>;

    closed spec fn view(&self) -> Seq<RpcOutView> {
        rpc_outs_view(self.queue@)
    }
}

impl Sender {
    /// The number of entries that the queue takes.
    pub closed spec fn capacity(&self) -> usize {
        self.capacity
    }

    /// An empty queue that takes `capacity` entries.
    pub fn new(capacity: usize) -> (r: Self)
        ensures
            r@ == Seq::<RpcOutView>::empty(),
            r.capacity() == capacity,
    {
        let r = Sender { queue: VecDeque::new(), capacity };
        assert(r@ =~= Seq::<RpcOutView>::empty());
        r
    }

    /// Puts `rpc` at the back of the queue, or hands it back where the queue
    /// is full.
    pub fn send_transaction(&mut self, rpc: RpcOut) -> (r: Result<(), RpcOut>)
        ensures
            final(self).capacity() == old(self).capacity(),
            match r {
                Ok(_) => old(self)@.len() < old(self).capacity() && final(self)@ == old(self)@.push(
                    rpc@,
                ),
                Err(back) => old(self)@.len() >= old(self).capacity() && final(self)@ == old(self)@
                    && back@ == rpc@,
            },
    {
        if self.queue.len() >= self.capacity {
            return Err(rpc);
        }
        self.queue.push_back(rpc);
        assert(self@ =~= old(self)@.push(rpc@));
        Ok(())
    }

    /// Takes the entry at the front of the queue.
    pub fn try_recv(&mut self) -> (r: Option<RpcOut>)
        ensures
            final(self).capacity() == old(self).capacity(),
            match r {
                Some(rpc) => old(self)@.len() > 0 && rpc@ == old(self)@[0] && final(self)@ == old(
                    self,
                )@.skip(1),
                None => old(self)@.len() == 0 && final(self)@ == old(self)@,
            },
    {
        let r = self.queue.pop_front();
        match &r {
            Some(rpc) => {
                assert(self@ =~= old(self)@.skip(1));
                assert(rpc@ == old(self)@[0]);
            },
            None => {
                assert(self@ =~= old(self)@);
            },
        }
        r
    }

    /// A copy of what waits, in order.
    pub fn entries(&self) -> (r: Vec<RpcOut>)
        ensures
            rpc_outs_view(r@) == self@,
    {
        let mut out: Vec<RpcOut> = Vec::new();
        let mut i: usize = 0;
        while i < self.queue.len()
            invariant
                i <= self.queue@.len(),
                rpc_outs_view(out@) == self@.take(i as int),
            decreases self.queue@.len() - i,
        {
            let ghost before = rpc_outs_view(out@);
            out.push(self.queue[i].clone());
            assert(rpc_outs_view(out@) =~= before.push(self@[i as int]));
            assert(rpc_outs_view(out@) =~= self@.take(i + 1));
            i += 1;
        }
        assert(self@.take(i as int) =~= self@);
        out
    }

    /// The number of entries that wait.
    pub fn len(&self) -> (r: usize)
        ensures
            r == self@.len(),
    {
        self.queue.len()
    }

    /// Whether the queue takes no further entry.
    pub fn is_full(&self) -> (r: bool)
        ensures
            r == (self@.len() >= self.capacity()),
    {
        self.queue.len() >= self.capacity
    }
}

/// The transactions of the `Publish` entries among `entries`, in order.
pub open spec fn spec_publishes(entries: Seq<RpcOutView>) -> Seq<crate::proto::TransactionView>
    decreases entries.len(),
{
    if entries.len() == 0 {
        Seq::empty()
    } else {
        match entries.last() {
            RpcOutView::Publish { tx, timeout } => spec_publishes(entries.drop_last()).push(tx),
            _ => spec_publishes(entries.drop_last()),
        }
    }
}

impl Sender {
    /// Empties the queue when the peer is gone. What waited is dropped; the
    /// transactions of the local node among it are handed back, in order, so
    /// that the loss can be reported.
    pub fn close(&mut self) -> (r: Vec<RawTransaction>)
        ensures
            final(self).capacity() == old(self).capacity(),
            final(self)@ == Seq::<RpcOutView>::empty(),
            crate::types::raw_transactions_view(r@) == spec_publishes(old(self)@),
    {
        let ghost all = self@;
        let mut lost: Vec<RawTransaction> = Vec::new();
        let ghost mut taken: int = 0;
        assert(all.take(0) =~= Seq::<RpcOutView>::empty());
        assert(crate::types::raw_transactions_view(lost@) =~= spec_publishes(all.take(0)));
        assert(all.skip(0) =~= all);
        loop
            invariant
                self.capacity == old(self).capacity,
                all == old(self)@,
                0 <= taken <= all.len(),
                self@ == all.skip(taken),
                crate::types::raw_transactions_view(lost@) == spec_publishes(all.take(taken)),
            ensures
                self@.len() == 0,
                taken == all.len(),
                self.capacity == old(self).capacity,
                all == old(self)@,
                crate::types::raw_transactions_view(lost@) == spec_publishes(all.take(taken)),
            decreases self@.len(),
        {
            let ghost before = crate::types::raw_transactions_view(lost@);
            match self.try_recv() {
                Some(rpc) => {
                    proof {
                        assert(all.take(taken + 1).drop_last() =~= all.take(taken));
                        assert(all.take(taken + 1).last() == all[taken]);
                        assert(all.skip(taken).skip(1) =~= all.skip(taken + 1));
                    }
                    match rpc {
                        RpcOut::Publish { tx, timeout: _ } => {
                            lost.push(tx);
                            assert(crate::types::raw_transactions_view(lost@) =~= before.push(tx@));
                        },
                        _ => {},
                    }
                    proof {
                        taken = taken + 1;
                    }
                },
                None => {
                    break ;
                },
            }
        }
        assert(all.take(taken) =~= all);
        assert(self@ =~= Seq::<RpcOutView>::empty());
        lost
    }
}

} // verus!
