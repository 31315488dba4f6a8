//! The bridge queue: a bounded FIFO of whole packets, one per direction of
//! the bridge between the TUN device and the tunnel engine. A full queue
//! rejects the newest packet, which the producer may retry; nothing is
//! reordered, and the ghost history makes that a theorem: what has been
//! consumed is always a prefix, in order, of what was produced.

use vstd::prelude::*;

verus! {

/// How many packets one direction of the bridge may hold.
pub const QUEUE_CAPACITY: usize = 100;

/// A bounded single-producer single-consumer packet queue.
pub struct PacketQueue {
    items: Vec<Vec<u8>>,
    history_in: Ghost<Seq<Seq<u8>>>,
    history_out: Ghost<Seq<Seq<u8>>>,
}

impl PacketQueue {
    /// The packets now waiting, oldest first.
    pub closed spec fn contents(self) -> Seq<Seq<u8>> {
        self.items@.map_values(|v: Vec<u8>| v@)
    }

    /// Every packet ever accepted, oldest first.
    pub closed spec fn produced(self) -> Seq<Seq<u8>> {
        self.history_in@
    }

    /// Every packet ever handed out, oldest first.
    pub closed spec fn consumed(self) -> Seq<Seq<u8>> {
        self.history_out@
    }

    pub open spec fn wf(self) -> bool {
        self.consumed() + self.contents() == self.produced() && self.contents().len()
            <= QUEUE_CAPACITY
    }

    pub fn new() -> (q: PacketQueue)
        ensures
            q.wf(),
            q.contents().len() == 0,
            q.produced().len() == 0,
            q.consumed().len() == 0,
    {
        let q = PacketQueue {
            items: Vec::new(),
            history_in: Ghost(Seq::empty()),
            history_out: Ghost(Seq::empty()),
        };
        proof {
            assert(q.consumed() + q.contents() =~= q.produced());
        }
        q
    }

    pub fn len(&self) -> (n: usize)
        ensures
            n == self.contents().len(),
    {
        self.items.len()
    }

    /// Accepts `p` at the back unless the queue is full; a full queue
    /// rejects the packet and stays as it is.
    pub fn push(&mut self, p: Vec<u8>) -> (accepted: bool)
        requires
            old(self).wf(),
        ensures
            final(self).wf(),
            final(self).consumed() == old(self).consumed(),
            accepted == (old(self).contents().len() < QUEUE_CAPACITY),
            accepted ==> final(self).contents() == old(self).contents().push(p@) && final(self).produced() == old(self).produced().push(p@),
            !accepted ==> final(self).contents() == old(self).contents() && final(self).produced()
                == old(self).produced(),
    {
        if self.items.len() < QUEUE_CAPACITY {
            proof {
                assert(old(self).items@.push(p).map_values(|v: Vec<u8>| v@) =~= old(self).contents().push(p@));
            }
            self.items.push(p);
            self.history_in = Ghost(self.history_in@.push(p@));
            proof {
                assert(self.consumed() + self.contents() =~= self.produced());
            }
            true
        } else {
            false
        }
    }

    /// Hands out the oldest waiting packet, if any.
    pub fn pop(&mut self) -> (r: Option<Vec<u8>>)
        requires
            old(self).wf(),
        ensures
            final(self).wf(),
            final(self).produced() == old(self).produced(),
            match r {
                Some(p) => old(self).contents().len() > 0 && p@ == old(self).contents()[0] && final(self).contents() == old(self).contents().drop_first() && final(self).consumed() == old(self).consumed().push(p@),
                None => old(self).contents().len() == 0 && final(self).contents() == old(self).contents() && final(self).consumed() == old(self).consumed(),
            },
    {
        if self.items.len() == 0 {
            None
        } else {
            let p = self.items.remove(0);
            proof {
                assert(self.items@.map_values(|v: Vec<u8>| v@) =~= old(self).contents().drop_first());
            }
            self.history_out = Ghost(self.history_out@.push(p@));
            proof {
                assert(self.consumed() + self.contents() =~= self.produced());
            }
            Some(p)
        }
    }
}

/// Order preservation through the bridge: at every moment, the packets a
/// consumer has taken from the queue are exactly the first packets the
/// producer put in, in the same order. A forwarder that encrypts packets
/// as it pops them therefore emits ciphertexts in the order the
/// plaintexts entered.
pub proof fn lemma_queue_preserves_order(q: PacketQueue)
    requires
        q.wf(),
    ensures
        q.consumed() == q.produced().take(q.consumed().len() as int),
        q.produced() == q.consumed() + q.contents(),
{
    assert(q.consumed() =~= q.produced().take(q.consumed().len() as int));
}

} // verus!
